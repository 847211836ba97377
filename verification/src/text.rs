//! Text utilities shared by the generators: comparisons, case folding,
//! line and word splitting, joining and padding.

use vstd::prelude::*;

verus! {

// ---------------------------------------------------------------------------
// Specifications
// ---------------------------------------------------------------------------

/// What `str::to_lowercase` returns for a string: the Unicode lowercase mapping,
/// character by character (some characters map to several).
pub uninterp spec fn lowercase(s: Seq<char>) -> Seq<char>;

/// Whether `needle` occurs in `s` as a contiguous piece.
pub open spec fn occurs_in(needle: Seq<char>, s: Seq<char>) -> bool {
    exists|i: int| 0 <= i && i + needle.len() <= s.len() && #[trigger] s.subrange(i, i + needle.len()) == needle
}

/// A case-insensitive prefix test: no pattern accepts everything; otherwise the
/// lowercased pattern must start the lowercased entry.
pub open spec fn pattern_accepts(pattern: Option<Seq<char>>, entry: Seq<char>) -> bool {
    match pattern {
        None => true,
        Some(p) => lowercase(p).is_prefix_of(lowercase(entry)),
    }
}

/// The Unicode `White_Space` characters, which `char::is_whitespace` recognises.
pub open spec fn is_white_space(c: char) -> bool {
    let u = c as u32;
    ||| 0x09 <= u <= 0x0D
    ||| u == 0x20
    ||| u == 0x85
    ||| u == 0xA0
    ||| u == 0x1680
    ||| 0x2000 <= u <= 0x200A
    ||| u == 0x2028
    ||| u == 0x2029
    ||| u == 0x202F
    ||| u == 0x205F
    ||| u == 0x3000
}

/// `n` spaces.
pub open spec fn spaces(n: nat) -> Seq<char> {
    Seq::new(n, |i: int| ' ')
}

/// `s` centred in a field of `width` characters, as `{:^width}` formats it:
/// the left side gets the smaller half of the padding.
pub open spec fn centered(s: Seq<char>, width: nat) -> Seq<char> {
    if s.len() >= width {
        s
    } else {
        let pad = (width - s.len()) as nat;
        spaces(pad / 2) + s + spaces((pad - pad / 2) as nat)
    }
}

/// The character of a decimal digit.
pub open spec fn digit_char(d: nat) -> char {
    if d == 0 { '0' }
    else if d == 1 { '1' }
    else if d == 2 { '2' }
    else if d == 3 { '3' }
    else if d == 4 { '4' }
    else if d == 5 { '5' }
    else if d == 6 { '6' }
    else if d == 7 { '7' }
    else if d == 8 { '8' }
    else { '9' }
}

/// The decimal notation of `n`, without leading zeros.
pub open spec fn decimal(n: nat) -> Seq<char>
    decreases n,
{
    if n < 10 {
        seq![digit_char(n)]
    } else {
        decimal(n / 10).push(digit_char(n % 10))
    }
}

/// A decimal notation has at least one digit, and two from ten on.
proof fn lemma_decimal_len(n: nat)
    ensures
        decimal(n).len() >= 1,
        n >= 10 ==> decimal(n).len() >= 2,
    decreases n,
{
    if n >= 10 {
        lemma_decimal_len(n / 10);
    }
}

/// Different numbers have different decimal notations.
pub proof fn lemma_decimal_injective(i: nat, j: nat)
    requires
        i != j,
    ensures
        decimal(i) != decimal(j),
    decreases i + j,
{
    lemma_decimal_len(i);
    lemma_decimal_len(j);
    if decimal(i) == decimal(j) {
        if i < 10 && j < 10 {
            assert(decimal(i)[0] == digit_char(i));
            assert(decimal(j)[0] == digit_char(j));
        } else if i >= 10 && j >= 10 {
            assert(decimal(i).last() == digit_char(i % 10));
            assert(decimal(j).last() == digit_char(j % 10));
            assert(i % 10 == j % 10);
            assert(decimal(i).drop_last() == decimal(i / 10));
            assert(decimal(j).drop_last() == decimal(j / 10));
            if i / 10 != j / 10 {
                lemma_decimal_injective(i / 10, j / 10);
            }
            assert(i == (i / 10) * 10 + i % 10);
            assert(j == (j / 10) * 10 + j % 10);
        } else {
            assert(decimal(i).len() != decimal(j).len());
        }
    }
}

/// The items of `list` with `sep` between each two of them.
pub open spec fn joined(list: Seq<Seq<char>>, sep: Seq<char>) -> Seq<char>
    decreases list.len(),
{
    if list.len() == 0 {
        seq![]
    } else if list.len() == 1 {
        list[0]
    } else {
        joined(list.drop_last(), sep) + sep + list.last()
    }
}

/// A line as a line reader hands it out: the `'\n'` is gone, and so is a `'\r'` before it.
pub open spec fn without_cr(line: Seq<char>) -> Seq<char> {
    if line.len() > 0 && line.last() == '\r' { line.drop_last() } else { line }
}

/// Lines of `t`, continuing a line `cur` that has begun and lines `acc` already cut.
pub open spec fn lines_from(t: Seq<char>, cur: Seq<char>, acc: Seq<Seq<char>>) -> Seq<Seq<char>>
    decreases t.len(),
{
    if t.len() == 0 {
        if cur.len() == 0 { acc } else { acc.push(cur) }
    } else if t[0] == '\n' {
        lines_from(t.drop_first(), seq![], acc.push(without_cr(cur)))
    } else {
        lines_from(t.drop_first(), cur.push(t[0]), acc)
    }
}

/// The lines of a text, as a buffered line reader yields them: every `'\n'` ends
/// a line (and a `'\r'` just before it is dropped); a last piece without `'\n'` is
/// a line too when it is not empty.
pub open spec fn lines_of(t: Seq<char>) -> Seq<Seq<char>> {
    lines_from(t, seq![], seq![])
}

/// Words of `t`, continuing a word `cur` that has begun and words `acc` already cut.
pub open spec fn words_from(t: Seq<char>, cur: Seq<char>, acc: Seq<Seq<char>>) -> Seq<Seq<char>>
    decreases t.len(),
{
    if t.len() == 0 {
        if cur.len() == 0 { acc } else { acc.push(cur) }
    } else if is_white_space(t[0]) {
        if cur.len() == 0 {
            words_from(t.drop_first(), seq![], acc)
        } else {
            words_from(t.drop_first(), seq![], acc.push(cur))
        }
    } else {
        words_from(t.drop_first(), cur.push(t[0]), acc)
    }
}

/// The maximal runs of non-white-space characters of `t`, in order.
pub open spec fn words_of(t: Seq<char>) -> Seq<Seq<char>> {
    words_from(t, seq![], seq![])
}

// ---------------------------------------------------------------------------
// Calls into std without a vstd specification
// ---------------------------------------------------------------------------

/// Calls `str::to_lowercase`; its result is named `lowercase`.
#[verifier::external_body]
pub fn to_lowercase(s: &str) -> (r: String)
    ensures
        r@ == lowercase(s@),
{
    s.to_lowercase()
}

/// Calls `String::push`, which appends one character.
#[verifier::external_body]
pub fn push_char(s: &mut String, c: char)
    ensures
        final(s)@ == old(s)@.push(c),
{
    s.push(c)
}

// ---------------------------------------------------------------------------
// Verified operations
// ---------------------------------------------------------------------------

/// The characters of `s`, in order.
pub fn chars_of(s: &str) -> (v: Vec<char>)
    ensures
        v@ == s@,
{
    let mut v: Vec<char> = Vec::new();
    for c in it: s.chars()
        invariant
            v@ == it.seq().take(it.index() as int),
            it.seq() == s@,
    {
        v.push(c);
    }
    v
}

/// A string made of the given characters.
pub fn string_of(cs: &Vec<char>) -> (s: String)
    ensures
        s@ == cs@,
{
    let mut s = String::new();
    let mut i: usize = 0;
    while i < cs.len()
        invariant
            i <= cs.len(),
            s@ == cs@.take(i as int),
        decreases cs.len() - i,
    {
        push_char(&mut s, cs[i]);
        i = i + 1;
        assert(s@ == cs@.take(i as int));
    }
    assert(cs@.take(cs.len() as int) == cs@);
    s
}

/// Whether two strings hold the same characters.
pub fn str_eq(a: &str, b: &str) -> (r: bool)
    ensures
        r == (a@ == b@),
{
    let x = chars_of(a);
    let y = chars_of(b);
    if x.len() != y.len() {
        return false;
    }
    let mut i: usize = 0;
    while i < x.len()
        invariant
            x@ == a@,
            y@ == b@,
            x.len() == y.len(),
            i <= x.len(),
            forall|k: int| 0 <= k < i ==> x@[k] == y@[k],
        decreases x.len() - i,
    {
        if x[i] != y[i] {
            return false;
        }
        i = i + 1;
    }
    assert(x@ == y@);
    true
}

/// Whether `prefix` starts `s`, as `str::starts_with` answers.
pub fn starts_with(s: &str, prefix: &str) -> (r: bool)
    ensures
        r == prefix@.is_prefix_of(s@),
{
    let x = chars_of(s);
    let p = chars_of(prefix);
    if p.len() > x.len() {
        return false;
    }
    let mut i: usize = 0;
    while i < p.len()
        invariant
            x@ == s@,
            p@ == prefix@,
            p.len() <= x.len(),
            i <= p.len(),
            forall|k: int| 0 <= k < i ==> x@[k] == p@[k],
        decreases p.len() - i,
    {
        if x[i] != p[i] {
            return false;
        }
        i = i + 1;
    }
    true
}

/// Whether `x` holds `n` at position `at`.
fn occurs_at(x: &Vec<char>, n: &Vec<char>, at: usize) -> (r: bool)
    requires
        at + n.len() <= x.len(),
    ensures
        r == (x@.subrange(at as int, at + n.len()) == n@),
{
    let mut i: usize = 0;
    while i < n.len()
        invariant
            at + n.len() <= x.len(),
            i <= n.len(),
            forall|k: int| 0 <= k < i ==> x@[at + k] == n@[k],
        decreases n.len() - i,
    {
        if x[at + i] != n[i] {
            assert(x@.subrange(at as int, at + n.len())[i as int] != n@[i as int]);
            return false;
        }
        i = i + 1;
    }
    assert(x@.subrange(at as int, at + n.len()) == n@);
    true
}

/// Whether `needle` occurs in `s`, as `str::contains` answers for a string needle.
pub fn contains_str(s: &str, needle: &str) -> (r: bool)
    ensures
        r == occurs_in(needle@, s@),
{
    let x = chars_of(s);
    let n = chars_of(needle);
    if n.len() > x.len() {
        return false;
    }
    let limit = x.len() - n.len();
    let mut at: usize = 0;
    loop
        invariant
            n.len() <= x.len(),
            limit == x.len() - n.len(),
            at <= limit,
            x@ == s@,
            n@ == needle@,
            forall|i: int| 0 <= i < at ==> #[trigger] x@.subrange(i, i + n.len()) != n@,
        decreases limit - at,
    {
        if occurs_at(&x, &n, at) {
            return true;
        }
        if at == limit {
            assert forall|i: int| 0 <= i && i + n@.len() <= x@.len() implies #[trigger] x@.subrange(i, i + n@.len()) != n@ by {
                assert(i <= at);
            }
            return false;
        }
        at = at + 1;
    }
}

/// Whether `entry` passes the case-insensitive prefix `pattern` (no pattern passes everything).
pub fn pattern_matches(entry: &str, pattern: Option<&str>) -> (r: bool)
    ensures
        r == pattern_accepts(
            match pattern {
                Some(p) => Some(p@),
                None => None,
            },
            entry@,
        ),
{
    match pattern {
        None => true,
        Some(p) => {
            let e = to_lowercase(entry);
            let q = to_lowercase(p);
            starts_with(e.as_str(), q.as_str())
        },
    }
}

/// `n` spaces appended to `s`.
fn push_spaces(s: &mut String, n: usize)
    ensures
        final(s)@ == old(s)@ + spaces(n as nat),
{
    let mut i: usize = 0;
    while i < n
        invariant
            i <= n,
            s@ == old(s)@ + spaces(i as nat),
        decreases n - i,
    {
        push_char(s, ' ');
        i = i + 1;
        assert(s@ == old(s)@ + spaces(i as nat));
    }
}

/// `s` centred in `width` characters, as the format `{:^width}` writes it.
pub fn center(s: &str, width: usize) -> (r: String)
    ensures
        r@ == centered(s@, width as nat),
{
    let cs = chars_of(s);
    let len = cs.len();
    if len >= width {
        return string_of(&cs);
    }
    let pad = width - len;
    let mut r = String::new();
    push_spaces(&mut r, pad / 2);
    r.append(s);
    push_spaces(&mut r, pad - pad / 2);
    r
}

/// The character of a decimal digit.
fn digit(d: usize) -> (c: char)
    requires
        d < 10,
    ensures
        c == digit_char(d as nat),
{
    if d == 0 { '0' }
    else if d == 1 { '1' }
    else if d == 2 { '2' }
    else if d == 3 { '3' }
    else if d == 4 { '4' }
    else if d == 5 { '5' }
    else if d == 6 { '6' }
    else if d == 7 { '7' }
    else if d == 8 { '8' }
    else { '9' }
}

/// The decimal notation of `n`, as `format!("{}", n)` writes it.
pub fn decimal_string(n: usize) -> (r: String)
    ensures
        r@ == decimal(n as nat),
    decreases n,
{
    if n < 10 {
        let mut r = String::new();
        push_char(&mut r, digit(n));
        r
    } else {
        let mut r = decimal_string(n / 10);
        push_char(&mut r, digit(n % 10));
        r
    }
}

/// The items of `list` with `sep` between each two, as `[String]::join` builds it.
pub fn join(list: &Vec<String>, sep: &str) -> (r: String)
    ensures
        r@ == joined(list@.map_values(|s: String| s@), sep@),
{
    let ghost views = list@.map_values(|s: String| s@);
    let mut r = String::new();
    let mut i: usize = 0;
    while i < list.len()
        invariant
            i <= list.len(),
            views == list@.map_values(|s: String| s@),
            r@ == joined(views.take(i as int), sep@),
        decreases list.len() - i,
    {
        if i != 0 {
            r.append(sep);
        }
        r.append(list[i].as_str());
        assert(views.take(i + 1).drop_last() == views.take(i as int));
        i = i + 1;
    }
    assert(views.take(list.len() as int) == views);
    r
}

/// The lines of `text`, as a buffered line reader yields them.
pub fn split_lines(text: &str) -> (lines: Vec<String>)
    ensures
        lines@.map_values(|s: String| s@) == lines_of(text@),
{
    let t = chars_of(text);
    let mut lines: Vec<String> = Vec::new();
    let mut cur: Vec<char> = Vec::new();
    let mut i: usize = 0;
    assert(t@.skip(0) == t@);
    assert(lines@.map_values(|s: String| s@) == Seq::<Seq<char>>::empty());
    assert(cur@ == Seq::<char>::empty());
    while i < t.len()
        invariant
            i <= t.len(),
            t@ == text@,
            lines_from(t@.skip(i as int), cur@, lines@.map_values(|s: String| s@)) == lines_of(text@),
        decreases t.len() - i,
    {
        assert(t@.skip(i as int).drop_first() == t@.skip(i + 1));
        if t[i] == '\n' {
            let ghost before = lines@.map_values(|s: String| s@);
            if cur.len() > 0 && cur[cur.len() - 1] == '\r' {
                cur.pop();
            }
            lines.push(string_of(&cur));
            assert(lines@.map_values(|s: String| s@) == before.push(cur@));
            cur = Vec::new();
        } else {
            cur.push(t[i]);
        }
        i = i + 1;
    }
    assert(t@.skip(i as int).len() == 0);
    if cur.len() > 0 {
        let ghost before = lines@.map_values(|s: String| s@);
        lines.push(string_of(&cur));
        assert(lines@.map_values(|s: String| s@) == before.push(cur@));
    }
    lines
}

/// Whether `c` is Unicode white space, as `char::is_whitespace` answers.
pub fn is_whitespace(c: char) -> (r: bool)
    ensures
        r == is_white_space(c),
{
    let u = c as u32;
    (0x09 <= u && u <= 0x0D) || u == 0x20 || u == 0x85 || u == 0xA0 || u == 0x1680
        || (0x2000 <= u && u <= 0x200A) || u == 0x2028 || u == 0x2029 || u == 0x202F
        || u == 0x205F || u == 0x3000
}

/// The words of `text`, as `str::split_whitespace` yields them.
pub fn split_whitespace(text: &str) -> (words: Vec<String>)
    ensures
        words@.map_values(|s: String| s@) == words_of(text@),
{
    let t = chars_of(text);
    let mut words: Vec<String> = Vec::new();
    let mut cur: Vec<char> = Vec::new();
    let mut i: usize = 0;
    assert(t@.skip(0) == t@);
    assert(words@.map_values(|s: String| s@) == Seq::<Seq<char>>::empty());
    assert(cur@ == Seq::<char>::empty());
    while i < t.len()
        invariant
            i <= t.len(),
            t@ == text@,
            words_from(t@.skip(i as int), cur@, words@.map_values(|s: String| s@)) == words_of(text@),
        decreases t.len() - i,
    {
        assert(t@.skip(i as int).drop_first() == t@.skip(i + 1));
        if is_whitespace(t[i]) {
            if cur.len() > 0 {
                let ghost before = words@.map_values(|s: String| s@);
                words.push(string_of(&cur));
                assert(words@.map_values(|s: String| s@) == before.push(cur@));
                cur = Vec::new();
            } else {
                assert(cur@ == Seq::<char>::empty());
            }
        } else {
            cur.push(t[i]);
        }
        i = i + 1;
    }
    assert(t@.skip(i as int).len() == 0);
    if cur.len() > 0 {
        let ghost before = words@.map_values(|s: String| s@);
        words.push(string_of(&cur));
        assert(words@.map_values(|s: String| s@) == before.push(cur@));
    }
    words
}

} // verus!

verus! {

/// The view of an optional string.
pub open spec fn opt_view(p: Option<&str>) -> Option<Seq<char>> {
    match p {
        Some(s) => Some(s@),
        None => None,
    }
}

/// The lines of `lines` that pass the case-insensitive prefix `pattern`, in order.
pub open spec fn matching_lines(lines: Seq<Seq<char>>, pattern: Option<Seq<char>>) -> Seq<Seq<char>>
    decreases lines.len(),
{
    if lines.len() == 0 {
        seq![]
    } else {
        let rest = matching_lines(lines.drop_last(), pattern);
        if pattern_accepts(pattern, lines.last()) {
            rest.push(lines.last())
        } else {
            rest
        }
    }
}

/// Copies of the lines that pass `pattern`, appended to `out`.
pub fn push_matching(out: &mut Vec<String>, lines: &Vec<String>, pattern: Option<&str>)
    ensures
        final(out)@.map_values(|s: String| s@) == old(out)@.map_values(|s: String| s@)
            + matching_lines(lines@.map_values(|s: String| s@), opt_view(pattern)),
{
    let ghost views = lines@.map_values(|s: String| s@);
    let ghost start = out@.map_values(|s: String| s@);
    let mut i: usize = 0;
    while i < lines.len()
        invariant
            i <= lines.len(),
            views == lines@.map_values(|s: String| s@),
            out@.map_values(|s: String| s@) == start + matching_lines(views.take(i as int), opt_view(pattern)),
        decreases lines.len() - i,
    {
        assert(views.take(i + 1).drop_last() == views.take(i as int));
        assert(views.take(i + 1).last() == lines[i as int]@);
        if pattern_matches(lines[i].as_str(), pattern) {
            let ghost before = out@;
            out.push(lines[i].clone());
            assert(out@.map_values(|s: String| s@) =~= before.map_values(|s: String| s@).push(lines[i as int]@));
        }
        i = i + 1;
    }
    assert(views.take(lines.len() as int) == views);
}

} // verus!

verus! {

/// The set of a sequence with one more item is the set with that item.
pub proof fn lemma_push_to_set<A>(s: Seq<A>, x: A)
    ensures
        s.push(x).to_set() == s.to_set().insert(x),
{
    assert forall|y: A| #[trigger] s.push(x).contains(y) <==> (s.contains(y) || y == x) by {
        if s.contains(y) {
            let i = choose|i: int| 0 <= i < s.len() && s[i] == y;
            assert(s.push(x)[i] == y);
        }
        if y == x {
            assert(s.push(x)[s.len() as int] == x);
        }
        if s.push(x).contains(y) {
            let i = choose|i: int| 0 <= i < s.push(x).len() && s.push(x)[i] == y;
            if i < s.len() {
                assert(s[i] == y);
            }
        }
    }
    assert(s.push(x).to_set() =~= s.to_set().insert(x));
}

} // verus!

verus! {

/// A centred text is as wide as the field, or as the text when it is wider.
pub proof fn law_centered_width(s: Seq<char>, width: nat)
    ensures
        centered(s, width).len() == if s.len() >= width { s.len() } else { width },
        s.len() < width ==> centered(s, width).subrange(
            ((width - s.len()) as nat / 2) as int,
            (((width - s.len()) as nat / 2) + s.len()) as int,
        ) == s,
{
    if s.len() < width {
        let pad = (width - s.len()) as nat;
        let l = spaces(pad / 2);
        assert(centered(s, width) == l + s + spaces((pad - pad / 2) as nat));
        assert((l + s + spaces((pad - pad / 2) as nat)).subrange(l.len() as int, (l.len() + s.len()) as int) =~= s);
    }
}

/// Every line kept by a pattern passes it and comes from the lines.
pub proof fn law_matching_lines_pass(lines: Seq<Seq<char>>, pattern: Option<Seq<char>>)
    ensures
        forall|i: int| 0 <= i < matching_lines(lines, pattern).len() ==>
            pattern_accepts(pattern, #[trigger] matching_lines(lines, pattern)[i])
            && lines.contains(matching_lines(lines, pattern)[i]),
        forall|i: int| 0 <= i < lines.len() && pattern_accepts(pattern, #[trigger] lines[i]) ==>
            matching_lines(lines, pattern).contains(lines[i]),
    decreases lines.len(),
{
    if lines.len() > 0 {
        let dl = lines.drop_last();
        law_matching_lines_pass(dl, pattern);
        let m = matching_lines(lines, pattern);
        let md = matching_lines(dl, pattern);
        assert forall|i: int| 0 <= i < m.len() implies pattern_accepts(pattern, #[trigger] m[i]) && lines.contains(m[i]) by {
            if i < md.len() {
                assert(m[i] == md[i]);
                let k = choose|k: int| 0 <= k < dl.len() && dl[k] == md[i];
                assert(lines[k] == md[i]);
            } else {
                assert(m[i] == lines.last());
                assert(lines[lines.len() - 1] == lines.last());
            }
        }
        assert forall|i: int| 0 <= i < lines.len() && pattern_accepts(pattern, #[trigger] lines[i]) implies m.contains(lines[i]) by {
            if i < dl.len() {
                assert(dl[i] == lines[i]);
                let k = choose|k: int| 0 <= k < md.len() && md[k] == dl[i];
                assert(m[k] == md[k]);
            } else {
                assert(m[m.len() - 1] == lines[i]);
            }
        }
    }
}

} // verus!
