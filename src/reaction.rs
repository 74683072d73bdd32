use vstd::prelude::*;
use vstd::string::*;

use crate::host::Host;
use crate::note_model::reactions_view;

verus! {

/// The count that a reaction list gives for `name`: the largest count listed
/// under that name, or 0 if none is.
pub open spec fn count_of(rs: Seq<(Seq<char>, i32)>, name: Seq<char>) -> int
    decreases rs.len(),
{
    if rs.len() == 0 {
        0
    } else {
        let prev = count_of(rs.drop_last(), name);
        let last = rs.last();
        if last.0 == name && last.1 > prev {
            last.1 as int
        } else {
            prev
        }
    }
}

pub open spec fn max_int(a: int, b: int) -> int {
    if a >= b {
        a
    } else {
        b
    }
}

/// Counts that `merged` gives are, name by name, the larger of those of `a` and `b`.
pub open spec fn counts_are_max_of(
    merged: Seq<(Seq<char>, i32)>,
    a: Seq<(Seq<char>, i32)>,
    b: Seq<(Seq<char>, i32)>,
) -> bool {
    forall|n: Seq<char>| #[trigger]
        count_of(merged, n) == max_int(count_of(a, n), count_of(b, n))
}

pub proof fn lemma_count_nonneg(rs: Seq<(Seq<char>, i32)>, name: Seq<char>)
    ensures
        count_of(rs, name) >= 0,
    decreases rs.len(),
{
    if rs.len() > 0 {
        lemma_count_nonneg(rs.drop_last(), name);
    }
}

pub proof fn lemma_count_push(rs: Seq<(Seq<char>, i32)>, e: (Seq<char>, i32), name: Seq<char>)
    ensures
        count_of(rs.push(e), name) == if e.0 == name {
            max_int(count_of(rs, name), e.1 as int)
        } else {
            count_of(rs, name)
        },
{
    assert(rs.push(e).drop_last() =~= rs);
}

pub proof fn lemma_count_absent(rs: Seq<(Seq<char>, i32)>, name: Seq<char>)
    requires
        forall|i: int| 0 <= i < rs.len() ==> rs[i].0 != name,
    ensures
        count_of(rs, name) == 0,
    decreases rs.len(),
{
    if rs.len() > 0 {
        lemma_count_absent(rs.drop_last(), name);
    }
}

/// Raising the count of one entry raises the count of its name to at least the new value.
pub proof fn lemma_count_raise(rs: Seq<(Seq<char>, i32)>, j: int, w: i32, name: Seq<char>)
    requires
        0 <= j < rs.len(),
        w >= rs[j].1,
    ensures
        count_of(rs.update(j, (rs[j].0, w)), name) == if rs[j].0 == name {
            max_int(count_of(rs, name), w as int)
        } else {
            count_of(rs, name)
        },
    decreases rs.len(),
{
    let up = rs.update(j, (rs[j].0, w));
    lemma_count_nonneg(rs, name);
    if j == rs.len() - 1 {
        assert(up.drop_last() =~= rs.drop_last());
        lemma_count_nonneg(rs.drop_last(), name);
    } else {
        assert(up.drop_last() =~= rs.drop_last().update(j, (rs[j].0, w)));
        lemma_count_raise(rs.drop_last(), j, w, name);
    }
}

/// The first entry of `rs` named `name`, if any.
pub fn find_reaction(rs: &Vec<(String, i32)>, name: &String) -> (r: Option<usize>)
    ensures
        match r {
            Some(j) => j < rs@.len() && rs@[j as int].0@ == name@,
            None => forall|k: int| 0 <= k < rs@.len() ==> rs@[k].0@ != name@,
        },
{
    let mut j: usize = 0;
    while j < rs.len()
        invariant
            j <= rs@.len(),
            forall|k: int| 0 <= k < j ==> rs@[k].0@ != name@,
        decreases rs@.len() - j,
    {
        if rs[j].0 == *name {
            return Some(j);
        }
        j = j + 1;
    }
    None
}

/// Some entry of `rs` is named `n`.
pub open spec fn has_name(rs: Seq<(Seq<char>, i32)>, n: Seq<char>) -> bool {
    exists|i: int| 0 <= i < rs.len() && rs[i].0 == n
}

/// No name occurs twice in `rs`.
pub open spec fn names_distinct(rs: Seq<(Seq<char>, i32)>) -> bool {
    forall|i: int, j: int| 0 <= i < j < rs.len() ==> rs[i].0 != rs[j].0
}

/// Every entry of `more` has an entry of the same name in `acc` that counts at least as much.
pub open spec fn covers(acc: Seq<(Seq<char>, i32)>, more: Seq<(Seq<char>, i32)>) -> bool {
    forall|k: int| 0 <= k < more.len() ==> #[trigger] covered_in(acc, more[k])
}

/// Some entry of `acc` has the name of `e` and counts at least as much.
pub open spec fn covered_in(acc: Seq<(Seq<char>, i32)>, e: (Seq<char>, i32)) -> bool {
    exists|j: int| 0 <= j < acc.len() && acc[j].0 == e.0 && acc[j].1 >= e.1
}

/// Appending an entry to both lists keeps the first covering the second.
pub proof fn lemma_covers_push(acc: Seq<(Seq<char>, i32)>, more: Seq<(Seq<char>, i32)>, e: (Seq<char>, i32))
    requires
        covers(acc, more),
    ensures
        covers(acc.push(e), more.push(e)),
{
    let a1 = acc.push(e);
    let m1 = more.push(e);
    assert forall|k: int| 0 <= k < m1.len() implies #[trigger] covered_in(a1, m1[k]) by {
        if k < more.len() {
            assert(m1[k] == more[k]);
            assert(covered_in(acc, more[k]));
            let l = choose|l: int| 0 <= l < acc.len() && acc[l].0 == more[k].0 && acc[l].1 >= more[k].1;
            assert(a1[l] == acc[l]);
        } else {
            assert(a1[acc.len() as int] == e);
        }
    }
}

pub proof fn lemma_has_name_push(rs: Seq<(Seq<char>, i32)>, e: (Seq<char>, i32), n: Seq<char>)
    ensures
        has_name(rs.push(e), n) == (has_name(rs, n) || e.0 == n),
{
    if has_name(rs, n) {
        let i = choose|i: int| 0 <= i < rs.len() && rs[i].0 == n;
        assert(rs.push(e)[i] == rs[i]);
    }
    if has_name(rs.push(e), n) {
        let i = choose|i: int| 0 <= i < rs.push(e).len() && rs.push(e)[i].0 == n;
        if i < rs.len() {
            assert(rs.push(e)[i] == rs[i]);
        }
    }
    if e.0 == n {
        assert(rs.push(e)[rs.len() as int] == e);
    }
}

pub proof fn lemma_has_name_update(rs: Seq<(Seq<char>, i32)>, j: int, c: i32, n: Seq<char>)
    requires
        0 <= j < rs.len(),
    ensures
        has_name(rs.update(j, (rs[j].0, c)), n) == has_name(rs, n),
{
    let up = rs.update(j, (rs[j].0, c));
    if has_name(rs, n) {
        let i = choose|i: int| 0 <= i < rs.len() && rs[i].0 == n;
        assert(up[i].0 == rs[i].0);
    }
    if has_name(up, n) {
        let i = choose|i: int| 0 <= i < up.len() && up[i].0 == n;
        assert(up[i].0 == rs[i].0);
    }
}

/// Adds the reactions of `more` to `acc`: afterwards each name counts the
/// larger of its two counts, so nothing observed on either side is lost and
/// merging the same list twice changes no count. Every name of either list
/// is kept, no name is repeated that was not repeated before, and a list
/// that already counts each entry of `more` at least as high is left as it was.
pub fn merge_reactions(acc: &mut Vec<(String, i32)>, more: &Vec<(String, i32)>)
    ensures
        counts_are_max_of(reactions_view(final(acc)@), reactions_view(old(acc)@), reactions_view(more@)),
        forall|n: Seq<char>|
            #[trigger] has_name(reactions_view(final(acc)@), n) == (has_name(reactions_view(old(acc)@), n)
                || has_name(reactions_view(more@), n)),
        names_distinct(reactions_view(old(acc)@)) ==> names_distinct(reactions_view(final(acc)@)),
        covers(reactions_view(final(acc)@), reactions_view(more@)),
        names_distinct(reactions_view(old(acc)@)) && covers(reactions_view(old(acc)@), reactions_view(more@))
            ==> reactions_view(final(acc)@) == reactions_view(old(acc)@),
{
    let ghost a0 = reactions_view(acc@);
    let ghost all = reactions_view(more@);
    assert forall|n: Seq<char>| #[trigger]
        count_of(reactions_view(acc@), n) == max_int(count_of(a0, n), count_of(reactions_view(more@.subrange(0, 0)), n)) by {
        lemma_count_nonneg(a0, n);
        assert(reactions_view(more@.subrange(0, 0)).len() == 0);
    }
    assert(reactions_view(more@.subrange(0, 0)) =~= Seq::<(Seq<char>, i32)>::empty());
    let mut i: usize = 0;
    while i < more.len()
        invariant
            i <= more@.len(),
            all == reactions_view(more@),
            counts_are_max_of(reactions_view(acc@), a0, reactions_view(more@.subrange(0, i as int))),
            a0 == reactions_view(old(acc)@),
            forall|n: Seq<char>|
                #[trigger] has_name(reactions_view(acc@), n) == (has_name(a0, n) || has_name(
                    reactions_view(more@.subrange(0, i as int)),
                    n,
                )),
            names_distinct(a0) ==> names_distinct(reactions_view(acc@)),
            names_distinct(a0) && covers(a0, all) ==> reactions_view(acc@) == a0,
            covers(reactions_view(acc@), reactions_view(more@.subrange(0, i as int))),
        decreases more@.len() - i,
    {
        let ghost before = reactions_view(acc@);
        let ghost mv = reactions_view(more@.subrange(0, i as int));
        let ghost e = (more@[i as int].0@, more@[i as int].1);
        assert(reactions_view(more@.subrange(0, i + 1)) =~= mv.push(e));
        assert(all[i as int] == e);
        let found = find_reaction(acc, &more[i].0);
        if let Some(j) = found {
            proof {
                if names_distinct(a0) && covers(a0, all) {
                    assert(covered_in(a0, all[i as int]));
                    let j2 = choose|j2: int|
                        0 <= j2 < a0.len() && a0[j2].0 == all[i as int].0 && a0[j2].1 >= all[i as int].1;
                    assert(before[j as int].0 == e.0);
                    assert(j2 == j);
                }
            }
            if acc[j].1 < more[i].1 {
                let name = acc[j].0.clone();
                acc.set(j, (name, more[i].1));
                proof {
                    assert(reactions_view(acc@) =~= before.update(j as int, (before[j as int].0, e.1)));
                    assert forall|n: Seq<char>| #[trigger]
                        count_of(reactions_view(acc@), n) == max_int(count_of(a0, n), count_of(mv.push(e), n)) by {
                        lemma_count_raise(before, j as int, e.1, n);
                        lemma_count_push(mv, e, n);
                        assert(count_of(before, n) == max_int(count_of(a0, n), count_of(mv, n)));
                    }
                    assert forall|n: Seq<char>|
                        #[trigger] has_name(reactions_view(acc@), n) == (has_name(a0, n) || has_name(mv.push(e), n)) by {
                        lemma_has_name_update(before, j as int, e.1, n);
                        lemma_has_name_push(mv, e, n);
                        if e.0 == n {
                            assert(has_name(before, n));
                        }
                    }
                    let now = reactions_view(acc@);
                    assert forall|x: int, y: int| names_distinct(a0) && 0 <= x < y < now.len() implies now[x].0 != now[y].0 by {
                        assert(now[x].0 == before[x].0 && now[y].0 == before[y].0);
                    }
                    let mv1 = mv.push(e);
                    assert forall|k: int| 0 <= k < mv1.len() implies #[trigger] covered_in(now, mv1[k]) by {
                        if k < mv.len() {
                            assert(mv1[k] == mv[k]);
                            assert(covered_in(before, mv[k]));
                            let l = choose|l: int| 0 <= l < before.len() && before[l].0 == mv[k].0 && before[l].1 >= mv[k].1;
                            assert(now[l].0 == before[l].0 && now[l].1 >= before[l].1);
                        } else {
                            assert(now[j as int].0 == e.0 && now[j as int].1 == e.1);
                        }
                    }
                    assert(covers(now, mv1));
                }
            } else {
                proof {
                    assert forall|n: Seq<char>| #[trigger]
                        count_of(reactions_view(acc@), n) == max_int(count_of(a0, n), count_of(mv.push(e), n)) by {
                        lemma_count_push(mv, e, n);
                        assert(count_of(before, n) == max_int(count_of(a0, n), count_of(mv, n)));
                        if n == e.0 {
                            lemma_count_raise(before, j as int, before[j as int].1, n);
                            assert(before.update(j as int, (before[j as int].0, before[j as int].1)) =~= before);
                        }
                    }
                    assert forall|n: Seq<char>|
                        #[trigger] has_name(reactions_view(acc@), n) == (has_name(a0, n) || has_name(mv.push(e), n)) by {
                        lemma_has_name_push(mv, e, n);
                        if e.0 == n {
                            assert(before[j as int].0 == n);
                            assert(has_name(before, n));
                        }
                    }
                    let mv1 = mv.push(e);
                    assert forall|k: int| 0 <= k < mv1.len() implies #[trigger] covered_in(before, mv1[k]) by {
                        if k < mv.len() {
                            assert(mv1[k] == mv[k]);
                        } else {
                            assert(before[j as int].0 == e.0 && before[j as int].1 >= e.1);
                        }
                    }
                    assert(covers(before, mv1));
                }
            }
        } else {
            let name = more[i].0.clone();
            acc.push((name, more[i].1));
            proof {
                assert(reactions_view(acc@) =~= before.push(e));
                assert forall|k: int| 0 <= k < before.len() implies before[k].0 != e.0 by {
                    assert(before[k].0 == acc@[k].0@);
                }
                assert forall|n: Seq<char>| #[trigger]
                    count_of(reactions_view(acc@), n) == max_int(count_of(a0, n), count_of(mv.push(e), n)) by {
                    lemma_count_push(before, e, n);
                    lemma_count_push(mv, e, n);
                    assert(count_of(before, n) == max_int(count_of(a0, n), count_of(mv, n)));
                    if n == e.0 {
                        lemma_count_absent(before, n);
                        lemma_count_nonneg(a0, n);
                        lemma_count_nonneg(mv, n);
                    }
                }
                assert forall|n: Seq<char>|
                    #[trigger] has_name(reactions_view(acc@), n) == (has_name(a0, n) || has_name(mv.push(e), n)) by {
                    lemma_has_name_push(before, e, n);
                    lemma_has_name_push(mv, e, n);
                }
                let now = reactions_view(acc@);
                assert forall|x: int, y: int| names_distinct(a0) && 0 <= x < y < now.len() implies now[x].0 != now[y].0 by {
                    if y == before.len() {
                        assert(now[x] == before[x]);
                    } else {
                        assert(now[x] == before[x] && now[y] == before[y]);
                    }
                }
                if names_distinct(a0) && covers(a0, all) {
                    assert(covered_in(a0, all[i as int]));
                    let j2 = choose|j2: int|
                        0 <= j2 < a0.len() && a0[j2].0 == all[i as int].0 && a0[j2].1 >= all[i as int].1;
                    assert(before[j2].0 == e.0);
                }
                lemma_covers_push(before, mv, e);
                assert(now == before.push(e));
            }
        }
        assert(covers(reactions_view(acc@), mv.push(e)));
        i = i + 1;
    }
    assert(more@.subrange(0, more@.len() as int) == more@);
}

/// No line break among the characters of `s`.
pub open spec fn single_line(s: Seq<char>) -> bool {
    forall|i: int| 0 <= i < s.len() ==> s[i] != '\n'
}

/// `s` matches the pattern `^:(.*)@(.*):$`: a colon, an at-sign and a closing
/// colon, with no line break between the outer colons.
pub open spec fn matches_name_at_host(s: Seq<char>) -> bool {
    &&& s.len() >= 3
    &&& s[0] == ':'
    &&& s[s.len() - 1] == ':'
    &&& exists|k: int| 1 <= k <= s.len() - 2 && s[k] == '@'
    &&& single_line(s.subrange(1, s.len() - 1))
}

/// Relies on fancy_regex::Regex::captures with the pattern `^:(.*)@(.*):$`:
/// the text matches as `matches_name_at_host` says, and the two greedy groups
/// split it at its last at-sign.
#[verifier::external_body]
fn split_name_at_host(name: &str) -> (r: Option<(String, String)>)
    ensures
        r is Some <==> matches_name_at_host(name@),
        r matches Some((a, b)) ==> {
            &&& name@ == ":"@ + a@ + "@"@ + b@ + ":"@
            &&& !b@.contains('@')
            &&& single_line(a@)
            &&& single_line(b@)
        },
{
    let re = fancy_regex::Regex::new("^:(.*)@(.*):$").unwrap();
    match re.captures(name) {
        Ok(Some(c)) => Some((c.get(1)?.as_str().to_string(), c.get(2)?.as_str().to_string())),
        _ => None,
    }
}

/// A reaction name of the form `:name@.:`, which stands for a custom emoji of
/// the server that reports it.
pub open spec fn is_local_emoji_name(s: Seq<char>) -> bool {
    &&& s.len() >= 4
    &&& s[0] == ':'
    &&& s[s.len() - 3] == '@'
    &&& s[s.len() - 2] == '.'
    &&& s[s.len() - 1] == ':'
    &&& single_line(s.subrange(1, s.len() - 1))
}

/// The name with the dot replaced by `host`: `:name@host:`.
pub open spec fn host_qualified_name(s: Seq<char>, host: Seq<char>) -> Seq<char> {
    s.subrange(0, s.len() - 2) + host + ":"@
}

/// The name under which a reaction reported by `host` is merged.
pub open spec fn qualified_name(s: Seq<char>, host: Seq<char>) -> Seq<char> {
    if is_local_emoji_name(s) {
        host_qualified_name(s, host)
    } else {
        s
    }
}

/// Qualifies a local custom-emoji reaction name `:name@.:` with the reporting
/// server: `:name@host:`. Other names need no qualification.
pub fn qualify_reaction(reaction_name: &str, host: &Host) -> (r: Option<String>)
    ensures
        is_local_emoji_name(reaction_name@) ==> (r matches Some(q) && q@ == host_qualified_name(
            reaction_name@,
            host@,
        )),
        !is_local_emoji_name(reaction_name@) ==> r is None,
{
    let ghost s = reaction_name@;
    match split_name_at_host(reaction_name) {
        Some((a, b)) => {
            proof {
                reveal_strlit(":");
                reveal_strlit("@");
                assert(s.len() == a@.len() + b@.len() + 3);
                assert(s[s.len() - 1] == ':');
                if b@.len() >= 2 {
                    assert(b@[b@.len() - 2] == s[s.len() - 3]);
                    assert(b@.contains(b@[b@.len() - 2]));
                }
                if b@.len() >= 1 {
                    assert(b@[b@.len() - 1] == s[s.len() - 2]);
                } else {
                    assert(s[s.len() - 2] == '@');
                }
            }
            if b.unicode_len() == 1 && b.as_str().get_char(0) == '.' {
                let mut q = ":".to_string();
                q.append(a.as_str());
                q.append("@");
                q.append(host.as_str());
                q.append(":");
                proof {
                    reveal_strlit(".");
                    assert(s.subrange(1, s.len() - 1) =~= a@ + "@"@ + b@);
                    assert forall|i: int| 1 <= i < s.len() - 1 implies s[i] != '\n' by {
                        if i < a@.len() + 1 {
                            assert(s[i] == a@[i - 1]);
                        } else if i == a@.len() + 1 {
                            assert(s[i] == '@');
                        } else {
                            assert(s[i] == b@[i - a@.len() - 2]);
                        }
                    }
                    assert(s.subrange(1, s.len() - 1) =~= a@ + "@"@ + b@);
                    assert(s.subrange(0, s.len() - 2) =~= ":"@ + a@ + "@"@);
                    assert(q@ =~= host_qualified_name(s, host@));
                }
                Some(q)
            } else {
                None
            }
        },
        None => {
            proof {
                if is_local_emoji_name(s) {
                    assert(s[s.len() - 3] == '@');
                    assert(matches_name_at_host(s));
                }
            }
            None
        },
    }
}

/// Qualifies every local custom-emoji reaction name in `rs` with `host`,
/// keeping counts and order.
pub fn qualify_reactions(rs: &mut Vec<(String, i32)>, host: &Host)
    ensures
        reactions_view(final(rs)@) == reactions_view(old(rs)@).map_values(
            |p: (Seq<char>, i32)| (qualified_name(p.0, host@), p.1),
        ),
{
    let mut i: usize = 0;
    while i < rs.len()
        invariant
            i <= rs@.len(),
            rs@.len() == old(rs)@.len(),
            forall|k: int| 0 <= k < i ==> rs@[k].0@ == qualified_name(#[trigger] old(rs)@[k].0@, host@)
                && rs@[k].1 == old(rs)@[k].1,
            forall|k: int| i <= k < rs@.len() ==> rs@[k] == old(rs)@[k],
        decreases rs@.len() - i,
    {
        assert(rs@[i as int] == old(rs)@[i as int]);
        let ghost prev = rs@;
        match qualify_reaction(rs[i].0.as_str(), host) {
            Some(q) => {
                let count = rs[i].1;
                rs.set(i, (q, count));
                assert(rs@[i as int].0@ == qualified_name(old(rs)@[i as int].0@, host@));
            },
            None => {
                assert(rs@[i as int].0@ == qualified_name(old(rs)@[i as int].0@, host@));
            },
        }
        assert(forall|k: int| 0 <= k < i ==> rs@[k] == prev[k]);
        i = i + 1;
    }
    assert(reactions_view(rs@) =~= reactions_view(old(rs)@).map_values(
        |p: (Seq<char>, i32)| (qualified_name(p.0, host@), p.1),
    ));
}

} // verus!
