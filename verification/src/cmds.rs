//! Editing word-list files: adding entries that are missing, and deleting
//! entries. The functions compute the text to write from the text read.

use vstd::prelude::*;
use crate::text::{join, joined, lines_from, lines_of, push_char, split_lines, without_cr};

verus! {

/// The views of a list of owned strings.
pub open spec fn views(v: Seq<String>) -> Seq<Seq<char>> {
    v.map_values(|s: String| s@)
}

/// The items of `entries` that are not in `lines`, in order.
pub open spec fn missing(lines: Seq<Seq<char>>, entries: Seq<Seq<char>>) -> Seq<Seq<char>>
    decreases entries.len(),
{
    if entries.len() == 0 {
        seq![]
    } else {
        let rest = missing(lines, entries.drop_last());
        if lines.contains(entries.last()) { rest } else { rest.push(entries.last()) }
    }
}

/// The items of `lines` that are not in `entries`, in order.
pub open spec fn remaining(lines: Seq<Seq<char>>, entries: Seq<Seq<char>>) -> Seq<Seq<char>> {
    missing(entries, lines)
}

/// The text of lines each ended by `'\n'`, as `writeln!` of the lines joined by
/// `'\n'` writes it.
pub open spec fn terminated(xs: Seq<Seq<char>>) -> Seq<char> {
    joined(xs, seq!['\n']) + seq!['\n']
}

/// The text to append to a word list so that it has the entries it misses;
/// nothing when it has them all.
pub open spec fn add_text(content: Seq<char>, entries: Seq<Seq<char>>) -> Option<Seq<char>> {
    let m = missing(lines_of(content), entries);
    if m.len() == 0 { None } else { Some(terminated(m)) }
}

/// The new text of a word list without the given entries: its other lines,
/// one per line, or the empty text when no line remains.
pub open spec fn delete_text(content: Seq<char>, entries: Seq<Seq<char>>) -> Seq<char> {
    let r = remaining(lines_of(content), entries);
    if r.len() == 0 { seq![] } else { terminated(r) }
}

/// The entries of `entries` that `lines` lacks, in order.
fn missing_from(lines: &Vec<String>, entries: &Vec<String>) -> (m: Vec<String>)
    ensures
        views(m@) == missing(views(lines@), views(entries@)),
{
    let ghost lv = views(lines@);
    let ghost ev = views(entries@);
    let mut m: Vec<String> = Vec::new();
    let mut i: usize = 0;
    while i < entries.len()
        invariant
            i <= entries@.len(),
            lv == views(lines@),
            ev == views(entries@),
            views(m@) == missing(lv, ev.take(i as int)),
        decreases entries@.len() - i,
    {
        assert(ev.take(i + 1).drop_last() == ev.take(i as int));
        let mut found = false;
        let mut j: usize = 0;
        while j < lines.len()
            invariant
                j <= lines@.len(),
                i < entries@.len(),
                lv == views(lines@),
                found == exists|k: int| 0 <= k < j && #[trigger] lv[k] == entries@[i as int]@,
            decreases lines@.len() - j,
        {
            assert(lv[j as int] == lines@[j as int]@);
            if crate::text::str_eq(lines[j].as_str(), entries[i].as_str()) {
                found = true;
            }
            j = j + 1;
        }
        proof {
            if lv.contains(ev[i as int]) {
                let k = choose|k: int| 0 <= k < lv.len() && lv[k] == ev[i as int];
                assert(lv[k] == entries@[i as int]@);
            }
        }
        if !found {
            let ghost before = m@;
            m.push(entries[i].clone());
            assert(views(m@) =~= views(before).push(ev[i as int]));
        }
        i = i + 1;
    }
    assert(ev.take(entries@.len() as int) == ev);
    m
}

/// The lines joined by `'\n'`, with a final `'\n'`.
fn terminated_text(xs: &Vec<String>) -> (t: String)
    ensures
        t@ == terminated(views(xs@)),
{
    let mut t = join(xs, "\n");
    push_char(&mut t, '\n');
    proof {
        reveal_strlit("\n");
        assert("\n"@ == seq!['\n']);
    }
    t
}

/// What adding `entries` to a word list of text `content` appends: the entries
/// it lacks, one per line; nothing when it has them all.
pub fn add(content: &str, entries: &Vec<String>) -> (r: Option<String>)
    ensures
        match add_text(content@, views(entries@)) {
            Some(t) => r matches Some(s) && s@ == t,
            None => r is None,
        },
{
    let lines = split_lines(content);
    let m = missing_from(&lines, entries);
    if m.len() == 0 {
        None
    } else {
        Some(terminated_text(&m))
    }
}

/// The new text of a word list of text `content` without `entries`: its other
/// lines, one per line; the empty text when none remains.
pub fn delete(content: &str, entries: &Vec<String>) -> (r: String)
    ensures
        r@ == delete_text(content@, views(entries@)),
{
    let lines = split_lines(content);
    let r = missing_from(entries, &lines);
    if r.len() == 0 {
        String::new()
    } else {
        terminated_text(&r)
    }
}

/// Whether a text holds no line break.
pub open spec fn one_line(x: Seq<char>) -> bool {
    !x.contains('\n')
}

/// Whether a line reads back as itself: no line break, and no `'\r'` at its end.
pub open spec fn reads_back(x: Seq<char>) -> bool {
    one_line(x) && without_cr(x) == x
}

/// The lines, each followed by `'\n'`.
pub open spec fn each_terminated(xs: Seq<Seq<char>>) -> Seq<char>
    decreases xs.len(),
{
    if xs.len() == 0 {
        seq![]
    } else {
        each_terminated(xs.drop_last()) + xs.last() + seq!['\n']
    }
}

proof fn lemma_terminated(xs: Seq<Seq<char>>)
    requires
        xs.len() > 0,
    ensures
        terminated(xs) == each_terminated(xs),
    decreases xs.len(),
{
    if xs.len() == 1 {
        assert(each_terminated(xs.drop_last()) == Seq::<char>::empty());
        assert(terminated(xs) =~= each_terminated(xs));
    } else {
        lemma_terminated(xs.drop_last());
        assert(terminated(xs) =~= each_terminated(xs));
    }
}

/// Reading a piece without line break only extends the current line.
proof fn lemma_read_piece(a: Seq<char>, s: Seq<char>, cur: Seq<char>, acc: Seq<Seq<char>>)
    requires
        one_line(a),
    ensures
        lines_from(a + s, cur, acc) == lines_from(s, cur + a, acc),
    decreases a.len(),
{
    if a.len() == 0 {
        assert(a + s =~= s);
        assert(cur + a =~= cur);
    } else {
        assert((a + s)[0] == a[0]);
        assert(a[0] != '\n') by {
            if a[0] == '\n' {
                assert(a.contains('\n'));
            }
        }
        assert((a + s).drop_first() =~= a.drop_first() + s);
        assert(one_line(a.drop_first())) by {
            if a.drop_first().contains('\n') {
                let k = choose|k: int| 0 <= k < a.drop_first().len() && a.drop_first()[k] == '\n';
                assert(a[k + 1] == '\n');
            }
        }
        lemma_read_piece(a.drop_first(), s, cur.push(a[0]), acc);
        assert(cur.push(a[0]) + a.drop_first() =~= cur + a);
    }
}

/// Reading lines each followed by `'\n'` adds them as they are.
proof fn lemma_read_terminated(xs: Seq<Seq<char>>, s: Seq<char>, acc: Seq<Seq<char>>)
    requires
        forall|i: int| 0 <= i < xs.len() ==> reads_back(#[trigger] xs[i]),
    ensures
        lines_from(each_terminated(xs) + s, seq![], acc) == lines_from(s, seq![], acc + xs),
    decreases xs.len(),
{
    if xs.len() == 0 {
        assert(each_terminated(xs) + s =~= s);
        assert(acc + xs =~= acc);
    } else {
        let dl = xs.drop_last();
        let x = xs.last();
        assert forall|i: int| 0 <= i < dl.len() implies reads_back(#[trigger] dl[i]) by {
            assert(dl[i] == xs[i]);
        }
        assert(each_terminated(xs) + s =~= each_terminated(dl) + (x + (seq!['\n'] + s)));
        lemma_read_terminated(dl, x + (seq!['\n'] + s), acc);
        assert(reads_back(xs[xs.len() - 1]));
        lemma_read_piece(x, seq!['\n'] + s, seq![], acc + dl);
        assert(Seq::<char>::empty() + x =~= x);
        assert((seq!['\n'] + s)[0] == '\n');
        assert((seq!['\n'] + s).drop_first() =~= s);
        assert((acc + dl).push(without_cr(x)) =~= acc + xs);
    }
}

/// After a text that ends a line, reading goes on with a fresh line.
proof fn lemma_read_after(t: Seq<char>, s: Seq<char>, cur: Seq<char>, acc: Seq<Seq<char>>)
    requires
        t.len() > 0,
        t.last() == '\n',
    ensures
        lines_from(t + s, cur, acc) == lines_from(s, seq![], lines_from(t, cur, acc)),
    decreases t.len(),
{
    assert((t + s)[0] == t[0]);
    assert((t + s).drop_first() =~= t.drop_first() + s);
    if t.len() == 1 {
        assert(t[0] == '\n');
        assert(t.drop_first() + s =~= s);
        assert(t.drop_first().len() == 0);
        assert(lines_from(t.drop_first(), seq![], acc.push(without_cr(cur))) == acc.push(without_cr(cur)));
    } else {
        assert(t.drop_first().last() == t.last());
        if t[0] == '\n' {
            lemma_read_after(t.drop_first(), s, seq![], acc.push(without_cr(cur)));
        } else {
            lemma_read_after(t.drop_first(), s, cur.push(t[0]), acc);
        }
    }
}

/// The lines of a text hold no line break.
proof fn lemma_lines_one_line(t: Seq<char>, cur: Seq<char>, acc: Seq<Seq<char>>)
    requires
        one_line(cur),
        forall|i: int| 0 <= i < acc.len() ==> one_line(#[trigger] acc[i]),
    ensures
        forall|i: int| 0 <= i < lines_from(t, cur, acc).len() ==> one_line(#[trigger] lines_from(t, cur, acc)[i]),
    decreases t.len(),
{
    if t.len() == 0 {
        assert(lines_from(t, cur, acc) == if cur.len() == 0 { acc } else { acc.push(cur) });
        assert forall|i: int| 0 <= i < acc.push(cur).len() implies one_line(#[trigger] acc.push(cur)[i]) by {
            if i < acc.len() {
                assert(acc.push(cur)[i] == acc[i]);
            }
        }
    } else if t[0] == '\n' {
        let w = without_cr(cur);
        assert(one_line(w)) by {
            if w.contains('\n') {
                let k = choose|k: int| 0 <= k < w.len() && w[k] == '\n';
                assert(cur[k] == '\n');
            }
        }
        assert forall|i: int| 0 <= i < acc.push(w).len() implies one_line(#[trigger] acc.push(w)[i]) by {
            if i < acc.len() {
                assert(acc.push(w)[i] == acc[i]);
            }
        }
        lemma_lines_one_line(t.drop_first(), seq![], acc.push(w));
        assert(lines_from(t, cur, acc) == lines_from(t.drop_first(), seq![], acc.push(w)));
    } else {
        assert(one_line(cur.push(t[0]))) by {
            if cur.push(t[0]).contains('\n') {
                let k = choose|k: int| 0 <= k < cur.push(t[0]).len() && cur.push(t[0])[k] == '\n';
                if k < cur.len() {
                    assert(cur[k] == '\n');
                }
            }
        }
        lemma_lines_one_line(t.drop_first(), cur.push(t[0]), acc);
        assert(lines_from(t, cur, acc) == lines_from(t.drop_first(), cur.push(t[0]), acc));
    }
}

/// What is missing comes from the entries, and every entry is either present
/// or missing.
proof fn lemma_missing(lines: Seq<Seq<char>>, entries: Seq<Seq<char>>)
    ensures
        forall|i: int| 0 <= i < missing(lines, entries).len() ==> entries.contains(#[trigger] missing(lines, entries)[i])
            && !lines.contains(missing(lines, entries)[i]),
        forall|e: Seq<char>| #[trigger] entries.contains(e) ==> lines.contains(e) || missing(lines, entries).contains(e),
    decreases entries.len(),
{
    if entries.len() > 0 {
        let dl = entries.drop_last();
        lemma_missing(lines, dl);
        let m = missing(lines, entries);
        let md = missing(lines, dl);
        assert forall|i: int| 0 <= i < m.len() implies entries.contains(#[trigger] m[i]) && !lines.contains(m[i]) by {
            if i < md.len() {
                assert(m[i] == md[i]);
                let k = choose|k: int| 0 <= k < dl.len() && dl[k] == md[i];
                assert(entries[k] == md[i]);
            } else {
                assert(m[i] == entries.last());
                assert(entries[entries.len() - 1] == entries.last());
            }
        }
        assert forall|e: Seq<char>| #[trigger] entries.contains(e) implies lines.contains(e) || m.contains(e) by {
            let k = choose|k: int| 0 <= k < entries.len() && entries[k] == e;
            if k < entries.len() - 1 {
                assert(dl[k] == e);
                assert(dl.contains(e));
                if md.contains(e) {
                    let j = choose|j: int| 0 <= j < md.len() && md[j] == e;
                    assert(m[j] == e);
                }
            } else if !lines.contains(e) {
                assert(m[m.len() - 1] == e);
            }
        }
    }
}

/// After adding entries to a word list whose text is empty or ends with a line
/// break, the list reads back as its old lines followed by the entries it
/// lacked, and it has every entry, when no entry holds a line break or ends
/// with `'\r'`.
pub proof fn law_add_then_present(content: Seq<char>, entries: Seq<Seq<char>>)
    requires
        content.len() == 0 || content.last() == '\n',
        forall|i: int| 0 <= i < entries.len() ==> reads_back(#[trigger] entries[i]),
    ensures
        ({
            let new = match add_text(content, entries) {
                Some(t) => content + t,
                None => content,
            };
            &&& lines_of(new) == lines_of(content) + missing(lines_of(content), entries)
            &&& forall|e: Seq<char>| #[trigger] entries.contains(e) ==> lines_of(new).contains(e)
        }),
{
    let lines = lines_of(content);
    let m = missing(lines, entries);
    lemma_missing(lines, entries);
    let new = match add_text(content, entries) {
        Some(t) => content + t,
        None => content,
    };
    if m.len() == 0 {
        assert(lines + m =~= lines);
    } else {
        lemma_terminated(m);
        assert forall|i: int| 0 <= i < m.len() implies reads_back(#[trigger] m[i]) by {
            let k = choose|k: int| 0 <= k < entries.len() && entries[k] == m[i];
            assert(reads_back(entries[k]));
        }
        if content.len() == 0 {
            assert(new =~= each_terminated(m) + Seq::<char>::empty());
            lemma_read_terminated(m, seq![], seq![]);
            assert(lines =~= Seq::<Seq<char>>::empty());
            assert(lines + m =~= m);
            assert(Seq::<Seq<char>>::empty() + m =~= m);
        } else {
            lemma_read_after(content, each_terminated(m), seq![], seq![]);
            assert(each_terminated(m) =~= each_terminated(m) + Seq::<char>::empty());
            lemma_read_terminated(m, seq![], lines);
        }
    }
    assert forall|e: Seq<char>| #[trigger] entries.contains(e) implies lines_of(new).contains(e) by {
        if lines.contains(e) {
            let k = choose|k: int| 0 <= k < lines.len() && lines[k] == e;
            assert(lines_of(new)[k] == e);
        } else {
            let k = choose|k: int| 0 <= k < m.len() && m[k] == e;
            assert(lines_of(new)[lines.len() + k] == e);
        }
    }
}

/// After deleting entries from a word list, the list reads back as exactly its
/// other lines, in order, and has none of the entries, provided no line of the
/// list ends with `'\r'`.
pub proof fn law_delete_then_absent(content: Seq<char>, entries: Seq<Seq<char>>)
    requires
        forall|i: int| 0 <= i < lines_of(content).len() ==> without_cr(#[trigger] lines_of(content)[i]) == lines_of(content)[i],
    ensures
        lines_of(delete_text(content, entries)) == remaining(lines_of(content), entries),
        forall|e: Seq<char>| #[trigger] entries.contains(e) ==> !lines_of(delete_text(content, entries)).contains(e),
{
    let lines = lines_of(content);
    let r = remaining(lines, entries);
    lemma_missing(entries, lines);
    if r.len() == 0 {
        assert(lines_of(Seq::<char>::empty()) == Seq::<Seq<char>>::empty());
        assert(r =~= Seq::<Seq<char>>::empty());
    } else {
        lemma_lines_one_line(content, seq![], seq![]);
        lemma_terminated(r);
        assert forall|i: int| 0 <= i < r.len() implies reads_back(#[trigger] r[i]) by {
            let k = choose|k: int| 0 <= k < lines.len() && lines[k] == r[i];
            assert(one_line(lines[k]));
        }
        lemma_read_terminated(r, seq![], seq![]);
        assert(each_terminated(r) + Seq::<char>::empty() =~= each_terminated(r));
        assert(Seq::<Seq<char>>::empty() + r =~= r);
    }
    assert forall|e: Seq<char>| #[trigger] entries.contains(e) implies !r.contains(e) by {
        if r.contains(e) {
            let k = choose|k: int| 0 <= k < r.len() && r[k] == e;
            assert(!entries.contains(r[k]));
        }
    }
}

/// Adding the same entries twice adds nothing the second time, when no entry
/// holds a line break or ends with `'\r'` and the list's text is empty or ends
/// with a line break.
pub proof fn law_add_twice_adds_nothing(content: Seq<char>, entries: Seq<Seq<char>>)
    requires
        content.len() == 0 || content.last() == '\n',
        forall|i: int| 0 <= i < entries.len() ==> reads_back(#[trigger] entries[i]),
    ensures
        ({
            let new = match add_text(content, entries) {
                Some(t) => content + t,
                None => content,
            };
            add_text(new, entries) is None
        }),
{
    law_add_then_present(content, entries);
    let new = match add_text(content, entries) {
        Some(t) => content + t,
        None => content,
    };
    lemma_missing(lines_of(new), entries);
    let m = missing(lines_of(new), entries);
    if m.len() > 0 {
        assert(entries.contains(m[0]));
        assert(!lines_of(new).contains(m[0]));
    }
}

/// Lines that are all among `entries` add nothing to what `entries` misses.
proof fn lemma_missing_after_known(entries: Seq<Seq<char>>, a: Seq<Seq<char>>, m: Seq<Seq<char>>)
    requires
        forall|i: int| 0 <= i < m.len() ==> entries.contains(#[trigger] m[i]),
    ensures
        missing(entries, a + m) == missing(entries, a),
    decreases m.len(),
{
    if m.len() == 0 {
        assert(a + m =~= a);
    } else {
        assert((a + m).drop_last() =~= a + m.drop_last());
        assert((a + m).last() == m[m.len() - 1]);
        lemma_missing_after_known(entries, a, m.drop_last());
    }
}

/// Deleting the entries just added gives back the list's other lines: adding
/// then deleting the same entries leaves exactly the old lines that are not
/// among them, when no entry holds a line break or ends with `'\r'`, no line
/// of the list ends with `'\r'`, and the list's text is empty or ends with a
/// line break.
pub proof fn law_add_then_delete(content: Seq<char>, entries: Seq<Seq<char>>)
    requires
        content.len() == 0 || content.last() == '\n',
        forall|i: int| 0 <= i < entries.len() ==> reads_back(#[trigger] entries[i]),
        forall|i: int| 0 <= i < lines_of(content).len() ==> without_cr(#[trigger] lines_of(content)[i]) == lines_of(content)[i],
    ensures
        ({
            let new = match add_text(content, entries) {
                Some(t) => content + t,
                None => content,
            };
            lines_of(delete_text(new, entries)) == remaining(lines_of(content), entries)
        }),
{
    law_add_then_present(content, entries);
    let lines = lines_of(content);
    let m = missing(lines, entries);
    lemma_missing(lines, entries);
    let new = match add_text(content, entries) {
        Some(t) => content + t,
        None => content,
    };
    assert forall|i: int| 0 <= i < lines_of(new).len() implies without_cr(#[trigger] lines_of(new)[i]) == lines_of(new)[i] by {
        if i >= lines.len() {
            let x = m[i - lines.len()];
            assert(lines_of(new)[i] == x);
            let k = choose|k: int| 0 <= k < entries.len() && entries[k] == x;
            assert(reads_back(entries[k]));
        } else {
            assert(lines_of(new)[i] == lines[i]);
        }
    }
    law_delete_then_absent(new, entries);
    lemma_missing_after_known(entries, lines, m);
}

} // verus!
