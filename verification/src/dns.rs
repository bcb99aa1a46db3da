//! Name resolution as the system configures it: the name servers of
//! `/etc/resolv.conf` and the host mappings of `/etc/hosts`.
//!
//! Reading the files and reading address text are left to the caller; the
//! line handling and the grouping of host names are here.

use vstd::prelude::*;

use crate::procnet::{lines_of, lines_spec, words_of, words_spec};
use crate::text::{starts_with_seq, str_eq, string_from_chars, trim, trimmed};

verus! {

/// The address text of a `nameserver` line, after trimming.
pub open spec fn nameserver_of(line: Seq<char>) -> Option<Seq<char>> {
    let t = trimmed(line);
    let p = "nameserver "@;
    if starts_with_seq(t, p) {
        Some(t.subrange(p.len() as int, t.len() as int))
    } else {
        None
    }
}

/// The address texts of the `nameserver` lines, in order.
pub open spec fn nameservers_spec(lines: Seq<Seq<char>>) -> Seq<Seq<char>>
    decreases lines.len(),
{
    if lines.len() == 0 {
        Seq::empty()
    } else {
        let prev = nameservers_spec(lines.drop_last());
        match nameserver_of(lines.last()) {
            Some(a) => prev.push(a),
            None => prev,
        }
    }
}

fn line_text(line: &Vec<char>) -> (r: String)
    ensures
        r@ == line@,
{
    let r = string_from_chars(line, 0, line.len());
    assert(line@.subrange(0, line@.len() as int) =~= line@);
    r
}

/// The address texts that the `nameserver` lines of a resolver
/// configuration name, in order; the caller keeps those that are
/// addresses.
pub fn nameserver_candidates(content: &str) -> (r: Vec<String>)
    ensures
        r@.map_values(|s: String| s@) == nameservers_spec(lines_spec(content@)),
{
    let chars = crate::text::chars_of(content);
    let lines = lines_of(&chars);
    let ghost ls = lines@.map_values(|l: Vec<char>| l@);
    let mut r: Vec<String> = Vec::new();
    let mut i: usize = 0;
    while i < lines.len()
        invariant
            i <= lines@.len(),
            ls == lines@.map_values(|l: Vec<char>| l@),
            ls == lines_spec(content@),
            r@.map_values(|s: String| s@) == nameservers_spec(ls.subrange(0, i as int)),
        decreases lines@.len() - i,
    {
        let ghost pre = ls.subrange(0, i + 1);
        assert(pre.drop_last() =~= ls.subrange(0, i as int));
        assert(pre.last() == lines@[i as int]@);
        let text = line_text(&lines[i]);
        let t = trim(text.as_str());
        proof {
            reveal_strlit("nameserver ");
        }
        if crate::text::str_starts_with(t.as_str(), "nameserver ") {
            let tc = crate::text::chars_of(t.as_str());
            let a = string_from_chars(&tc, 11, tc.len());
            let ghost before = r@.map_values(|s: String| s@);
            r.push(a);
            assert(r@.map_values(|s: String| s@) =~= before.push(a@));
        }
        i = i + 1;
    }
    assert(ls.subrange(0, lines@.len() as int) =~= ls);
    r
}

/// The words of a hosts-file line that can map names: not blank, not a
/// comment, and with an address and at least one name.
pub open spec fn host_line_words(line: Seq<char>) -> Option<Seq<Seq<char>>> {
    let t = trimmed(line);
    let w = words_spec(t);
    if t.len() == 0 || t[0] == '#' || w.len() < 2 {
        None
    } else {
        Some(w)
    }
}

/// The word lists of the mapping lines, in order.
pub open spec fn host_entries_spec(lines: Seq<Seq<char>>) -> Seq<Seq<Seq<char>>>
    decreases lines.len(),
{
    if lines.len() == 0 {
        Seq::empty()
    } else {
        let prev = host_entries_spec(lines.drop_last());
        match host_line_words(lines.last()) {
            Some(w) => prev.push(w),
            None => prev,
        }
    }
}

/// The words of a string list.
pub open spec fn word_views(ws: Seq<String>) -> Seq<Seq<char>> {
    ws.map_values(|w: String| w@)
}

/// The mapping lines of a hosts file, each as its words: the address text
/// first, then the names. Blank lines, comments and lines without a name
/// are left out; the caller keeps the lines whose first word is an
/// address.
pub fn host_entries(content: &str) -> (r: Vec<Vec<String>>)
    ensures
        r@.map_values(|ws: Vec<String>| word_views(ws@)) == host_entries_spec(lines_spec(content@)),
{
    let chars = crate::text::chars_of(content);
    let lines = lines_of(&chars);
    let ghost ls = lines@.map_values(|l: Vec<char>| l@);
    let mut r: Vec<Vec<String>> = Vec::new();
    let mut i: usize = 0;
    while i < lines.len()
        invariant
            i <= lines@.len(),
            ls == lines@.map_values(|l: Vec<char>| l@),
            ls == lines_spec(content@),
            r@.map_values(|ws: Vec<String>| word_views(ws@)) == host_entries_spec(ls.subrange(0, i as int)),
        decreases lines@.len() - i,
    {
        let ghost pre = ls.subrange(0, i + 1);
        assert(pre.drop_last() =~= ls.subrange(0, i as int));
        assert(pre.last() == lines@[i as int]@);
        let text = line_text(&lines[i]);
        let t = trim(text.as_str());
        let tc = crate::text::chars_of(t.as_str());
        if tc.len() > 0 && tc[0] != '#' {
            let words = words_of(&tc);
            if words.len() >= 2 {
                let mut ws: Vec<String> = Vec::new();
                let mut k: usize = 0;
                while k < words.len()
                    invariant
                        k <= words@.len(),
                        ws@.len() == k,
                        forall|x: int| 0 <= x < k ==> (#[trigger] ws@[x])@ == words@[x]@,
                    decreases words@.len() - k,
                {
                    let w = line_text(&words[k]);
                    ws.push(w);
                    k = k + 1;
                }
                proof {
                    assert(word_views(ws@) =~= words@.map_values(|w: Vec<char>| w@));
                }
                let ghost before = r@.map_values(|ws: Vec<String>| word_views(ws@));
                r.push(ws);
                assert(r@.map_values(|ws: Vec<String>| word_views(ws@)) =~= before.push(word_views(ws@)));
            }
        }
        i = i + 1;
    }
    assert(ls.subrange(0, lines@.len() as int) =~= ls);
    r
}

/// Every (name, line) pair: the names of each line with the line's index,
/// line by line.
pub open spec fn name_pairs(rows: Seq<Seq<Seq<char>>>) -> Seq<(Seq<char>, nat)>
    decreases rows.len(),
{
    if rows.len() == 0 {
        Seq::empty()
    } else {
        let i = (rows.len() - 1) as nat;
        name_pairs(rows.drop_last()) + rows.last().map_values(|n: Seq<char>| (n, i))
    }
}

/// The index of the group of `name`, or the number of groups.
pub open spec fn group_index(gs: Seq<(Seq<char>, Seq<nat>)>, name: Seq<char>) -> nat
    decreases gs.len(),
{
    if gs.len() == 0 {
        0
    } else if gs[0].0 == name {
        0
    } else {
        1 + group_index(gs.drop_first(), name)
    }
}

/// Names grouped with the lines that give them: a group per name in order
/// of first appearance, holding the line of each appearance in order.
pub open spec fn groups_spec(pairs: Seq<(Seq<char>, nat)>) -> Seq<(Seq<char>, Seq<nat>)>
    decreases pairs.len(),
{
    if pairs.len() == 0 {
        Seq::empty()
    } else {
        let prev = groups_spec(pairs.drop_last());
        let (name, i) = pairs.last();
        let k = group_index(prev, name);
        if k < prev.len() {
            prev.update(k as int, (name, prev[k as int].1.push(i)))
        } else {
            prev.push((name, seq![i]))
        }
    }
}

proof fn lemma_group_index_absent(gs: Seq<(Seq<char>, Seq<nat>)>, name: Seq<char>)
    ensures
        group_index(gs, name) <= gs.len(),
        group_index(gs, name) < gs.len() ==> gs[group_index(gs, name) as int].0 == name,
        group_index(gs, name) == gs.len() ==> forall|x: int| 0 <= x < gs.len() ==> gs[x].0 != name,
    decreases gs.len(),
{
    if gs.len() > 0 && gs[0].0 != name {
        lemma_group_index_absent(gs.drop_first(), name);
        assert forall|x: int| 0 <= x < gs.len() && group_index(gs, name) == gs.len() implies gs[x].0 != name by {
            if x > 0 {
                assert(gs.drop_first()[x - 1] == gs[x]);
            }
        }
    }
}

/// Each host name gets exactly one group, and every appearance of a name is
/// counted in its group: the groups hold as many lines as there are
/// appearances.
pub proof fn law_one_group_per_name(pairs: Seq<(Seq<char>, nat)>)
    ensures
        forall|i: int, j: int|
            0 <= i < j < groups_spec(pairs).len() ==> groups_spec(pairs)[i].0 != groups_spec(pairs)[j].0,
        lines_counted(groups_spec(pairs)) == pairs.len(),
    decreases pairs.len(),
{
    if pairs.len() > 0 {
        let init = pairs.drop_last();
        law_one_group_per_name(init);
        let prev = groups_spec(init);
        let (name, i) = pairs.last();
        lemma_group_index_absent(prev, name);
        let k = group_index(prev, name);
        let g = groups_spec(pairs);
        if k < prev.len() {
            assert forall|a: int, b: int| 0 <= a < b < g.len() implies g[a].0 != g[b].0 by {
                assert(g[a].0 == prev[a].0 && g[b].0 == prev[b].0);
            }
            lemma_lines_counted_update(prev, k as int, (name, prev[k as int].1.push(i)));
        } else {
            assert forall|a: int, b: int| 0 <= a < b < g.len() implies g[a].0 != g[b].0 by {
                if b == prev.len() {
                    assert(g[a] == prev[a]);
                } else {
                    assert(g[a] == prev[a] && g[b] == prev[b]);
                }
            }
            assert(g.drop_last() =~= prev);
        }
    }
}

/// The number of lines the groups hold together.
pub open spec fn lines_counted(gs: Seq<(Seq<char>, Seq<nat>)>) -> nat
    decreases gs.len(),
{
    if gs.len() == 0 {
        0
    } else {
        lines_counted(gs.drop_last()) + gs.last().1.len()
    }
}

proof fn lemma_lines_counted_update(gs: Seq<(Seq<char>, Seq<nat>)>, k: int, g: (Seq<char>, Seq<nat>))
    requires
        0 <= k < gs.len(),
        g.1.len() == gs[k].1.len() + 1,
    ensures
        lines_counted(gs.update(k, g)) == lines_counted(gs) + 1,
    decreases gs.len(),
{
    let u = gs.update(k, g);
    if k == gs.len() - 1 {
        assert(u.drop_last() =~= gs.drop_last());
    } else {
        lemma_lines_counted_update(gs.drop_last(), k, g);
        assert(u.drop_last() =~= gs.drop_last().update(k, g));
    }
}

/// A group with its lines as natural numbers.
pub open spec fn group_view(g: (String, Vec<usize>)) -> (Seq<char>, Seq<nat>) {
    (g.0@, g.1@.map_values(|i: usize| i as nat))
}

proof fn lemma_group_index(gs: Seq<(Seq<char>, Seq<nat>)>, name: Seq<char>, k: int)
    requires
        0 <= k <= gs.len(),
        forall|x: int| 0 <= x < k ==> gs[x].0 != name,
        k < gs.len() ==> gs[k].0 == name,
    ensures
        group_index(gs, name) == k,
    decreases k,
{
    if k > 0 {
        lemma_group_index(gs.drop_first(), name, k - 1);
    }
}

/// Groups host names by the lines that map them: for each name, in order
/// of first appearance, the indices of the rows that hold it, once per
/// appearance. `rows` holds the names of each mapping line.
pub fn group_hostnames(rows: &Vec<Vec<String>>) -> (r: Vec<(String, Vec<usize>)>)
    ensures
        r@.map_values(|g: (String, Vec<usize>)| group_view(g)) == groups_spec(
            name_pairs(rows@.map_values(|ws: Vec<String>| word_views(ws@))),
        ),
{
    let ghost rv = rows@.map_values(|ws: Vec<String>| word_views(ws@));
    let mut r: Vec<(String, Vec<usize>)> = Vec::new();
    let mut i: usize = 0;
    while i < rows.len()
        invariant
            i <= rows@.len(),
            rv == rows@.map_values(|ws: Vec<String>| word_views(ws@)),
            r@.map_values(|g: (String, Vec<usize>)| group_view(g)) == groups_spec(
                name_pairs(rv.subrange(0, i as int)),
            ),
        decreases rows@.len() - i,
    {
        let ghost base = name_pairs(rv.subrange(0, i as int));
        proof {
            let pre = rv.subrange(0, i + 1);
            assert(pre.drop_last() =~= rv.subrange(0, i as int));
            assert(pre.last() == word_views(rows@[i as int]@));
        }
        let ghost row_pairs = word_views(rows@[i as int]@).map_values(|n: Seq<char>| (n, i as nat));
        let row = &rows[i];
        let mut j: usize = 0;
        while j < row.len()
            invariant
                i < rows@.len(),
                row == &rows@[i as int],
                j <= row@.len(),
                row_pairs == word_views(row@).map_values(|n: Seq<char>| (n, i as nat)),
                r@.map_values(|g: (String, Vec<usize>)| group_view(g)) == groups_spec(
                    base + row_pairs.subrange(0, j as int),
                ),
            decreases row@.len() - j,
        {
            let ghost ps = base + row_pairs.subrange(0, j as int);
            let ghost ps2 = base + row_pairs.subrange(0, j + 1);
            assert(ps2.drop_last() =~= ps);
            assert(ps2.last() == (row@[j as int]@, i as nat));
            let name = &row[j];
            let ghost gv = r@.map_values(|g: (String, Vec<usize>)| group_view(g));
            let mut k: usize = 0;
            while k < r.len() && !str_eq(r[k].0.as_str(), name.as_str())
                invariant
                    k <= r@.len(),
                    gv == r@.map_values(|g: (String, Vec<usize>)| group_view(g)),
                    forall|x: int| 0 <= x < k ==> gv[x].0 != name@,
                decreases r@.len() - k,
            {
                k = k + 1;
            }
            proof {
                lemma_group_index(gv, name@, k as int);
            }
            if k < r.len() {
                let (key, mut lines) = r.remove(k);
                lines.push(i);
                let ghost g2 = (key, lines);
                r.insert(k, (key, lines));
                proof {
                    assert(group_view(g2).1 =~= gv[k as int].1.push(i as nat));
                    assert(r@.map_values(|g: (String, Vec<usize>)| group_view(g)) =~= gv.update(
                        k as int,
                        (name@, gv[k as int].1.push(i as nat)),
                    ));
                }
            } else {
                let mut lines: Vec<usize> = Vec::new();
                lines.push(i);
                let g = (name.clone(), lines);
                proof {
                    assert(group_view(g).1 =~= seq![i as nat]);
                }
                r.push(g);
                assert(r@.map_values(|g: (String, Vec<usize>)| group_view(g)) =~= gv.push(
                    (name@, seq![i as nat]),
                ));
            }
            j = j + 1;
        }
        proof {
            assert(row_pairs.subrange(0, row@.len() as int) =~= row_pairs);
            assert(name_pairs(rv.subrange(0, i + 1)) =~= base + row_pairs);
        }
        i = i + 1;
    }
    assert(rv.subrange(0, rows@.len() as int) =~= rv);
    r
}

} // verus!
