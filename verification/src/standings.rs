//! The final scoreboard: operators ranked by total score, ties broken by
//! callsign.
use vstd::prelude::*;

use crate::state::score_of;
use crate::state::App;
use crate::state::Participant;
use crate::text::char_index_at_byte;
use crate::text::char_index_of_byte;
use crate::text::chars_of;
use crate::text::str_byte_len;
use crate::text::string_from;
use crate::text::byte_len;

verus! {

/// Lexicographic order of texts by code point, a proper prefix first (the
/// order of `String`'s `Ord`, since UTF-8 preserves code point order).
pub open spec fn text_lt(a: Seq<char>, b: Seq<char>) -> bool
    decreases a.len(),
{
    if a.len() == 0 {
        b.len() > 0
    } else if b.len() == 0 {
        false
    } else if a[0] != b[0] {
        (a[0] as u32) < (b[0] as u32)
    } else {
        text_lt(a.drop_first(), b.drop_first())
    }
}

proof fn lemma_text_lt_irreflexive(a: Seq<char>)
    ensures
        !text_lt(a, a),
    decreases a.len(),
{
    if a.len() > 0 {
        lemma_text_lt_irreflexive(a.drop_first());
    }
}

proof fn lemma_text_lt_transitive(a: Seq<char>, b: Seq<char>, c: Seq<char>)
    requires
        text_lt(a, b),
        text_lt(b, c),
    ensures
        text_lt(a, c),
    decreases a.len(),
{
    if a.len() > 0 && b.len() > 0 && c.len() > 0 {
        if a[0] == b[0] && b[0] == c[0] {
            lemma_text_lt_transitive(a.drop_first(), b.drop_first(), c.drop_first());
        } else {
            broadcast use vstd::utf8::char_u32_cast;

            assert((a[0] as u32) == (b[0] as u32) ==> a[0] == b[0]);
            assert((b[0] as u32) == (c[0] as u32) ==> b[0] == c[0]);
            assert((a[0] as u32) == (c[0] as u32) ==> a[0] == c[0]);
        }
    }
}

proof fn lemma_text_lt_total(a: Seq<char>, b: Seq<char>)
    requires
        a != b,
    ensures
        text_lt(a, b) || text_lt(b, a),
    decreases a.len(),
{
    if a.len() > 0 && b.len() > 0 {
        if a[0] == b[0] {
            if a.drop_first() == b.drop_first() {
                assert(a == seq![a[0]] + a.drop_first());
                assert(b == seq![b[0]] + b.drop_first());
            }
            lemma_text_lt_total(a.drop_first(), b.drop_first());
        } else {
            if (a[0] as u32) == (b[0] as u32) {
                vstd::utf8::char_u32_cast(a[0], a[0] as u32);
                vstd::utf8::char_u32_cast(b[0], b[0] as u32);
            }
        }
    } else if a.len() == 0 && b.len() == 0 {
        assert(a == b);
    }
}

/// Participant `i` ranks above participant `j`: a higher total, or the
/// same total and a smaller callsign, or both equal and an earlier entry
/// (the ranking is stable).
pub open spec fn ranks_above(ps: Seq<Participant>, i: int, j: int) -> bool {
    let si = score_of(ps[i]);
    let sj = score_of(ps[j]);
    ||| si > sj
    ||| si == sj && text_lt(ps[i].callsign@, ps[j].callsign@)
    ||| si == sj && ps[i].callsign@ == ps[j].callsign@ && i < j
}

proof fn lemma_ranks_above_order(ps: Seq<Participant>, i: int, j: int, k: int)
    ensures
        !ranks_above(ps, i, i),
        i != j ==> ranks_above(ps, i, j) || ranks_above(ps, j, i),
        ranks_above(ps, i, j) ==> !ranks_above(ps, j, i),
        ranks_above(ps, i, j) && ranks_above(ps, j, k) ==> ranks_above(ps, i, k),
{
    let (a, b, c) = (ps[i].callsign@, ps[j].callsign@, ps[k].callsign@);
    lemma_text_lt_irreflexive(a);
    if a != b {
        lemma_text_lt_total(a, b);
    }
    if text_lt(a, b) && text_lt(b, a) {
        lemma_text_lt_transitive(a, b, a);
    }
    if text_lt(a, b) && text_lt(b, c) {
        lemma_text_lt_transitive(a, b, c);
    }
}

/// `order` lists the indices `0..n` of `ps`, each once, best rank first.
pub open spec fn is_standings_order(ps: Seq<Participant>, order: Seq<int>) -> bool {
    &&& order.len() == ps.len()
    &&& forall|k: int| 0 <= k < order.len() ==> 0 <= #[trigger] order[k] < ps.len()
    &&& order.no_duplicates()
    &&& forall|a: int, b: int|
        0 <= a < b < order.len() ==> ranks_above(ps, #[trigger] order[a], #[trigger] order[b])
}

/// A standings order lists higher totals first, and among equal totals
/// the callsigns in ascending order.
pub proof fn law_standings_best_first(ps: Seq<Participant>, order: Seq<int>)
    requires
        is_standings_order(ps, order),
    ensures
        forall|a: int, b: int|
            0 <= a < b < order.len() ==> score_of(#[trigger] ps[order[a]]) >= score_of(
                #[trigger] ps[order[b]],
            ) && (score_of(ps[order[a]]) == score_of(ps[order[b]]) ==> !text_lt(
                ps[order[b]].callsign@,
                ps[order[a]].callsign@,
            )),
{
    assert forall|a: int, b: int| 0 <= a < b < order.len() implies score_of(
        #[trigger] ps[order[a]],
    ) >= score_of(#[trigger] ps[order[b]]) && (score_of(ps[order[a]]) == score_of(ps[order[b]])
        ==> !text_lt(ps[order[b]].callsign@, ps[order[a]].callsign@)) by {
        assert(ranks_above(ps, order[a], order[b]));
        let (x, y) = (ps[order[a]].callsign@, ps[order[b]].callsign@);
        lemma_text_lt_irreflexive(x);
        if text_lt(x, y) && text_lt(y, x) {
            lemma_text_lt_transitive(x, y, x);
        }
    }
}

/// Every total score fits in a `u32`.
pub open spec fn scores_fit(ps: Seq<Participant>) -> bool {
    forall|k: int| 0 <= k < ps.len() ==> score_of(#[trigger] ps[k]) <= u32::MAX
}

fn text_less(a: &[char], b: &[char]) -> (r: bool)
    ensures
        r == text_lt(a@, b@),
{
    let n = a.len();
    let m = b.len();
    let mut i: usize = 0;
    assert(a@.skip(0) == a@ && b@.skip(0) == b@);
    loop
        invariant
            i <= n == a@.len(),
            i <= m == b@.len(),
            text_lt(a@, b@) == text_lt(a@.skip(i as int), b@.skip(i as int)),
        decreases n - i,
    {
        if i == n {
            return i < m;
        }
        if i == m {
            return false;
        }
        assert(a@.skip(i as int)[0] == a@[i as int] && b@.skip(i as int)[0] == b@[i as int]);
        if a[i] != b[i] {
            return (a[i] as u32) < (b[i] as u32);
        }
        assert(a@.skip(i as int).drop_first() == a@.skip(i + 1));
        assert(b@.skip(i as int).drop_first() == b@.skip(i + 1));
        i += 1;
    }
}

fn ranks_above_exec(ps: &Vec<Participant>, i: usize, j: usize) -> (r: bool)
    requires
        i < ps@.len(),
        j < ps@.len(),
        scores_fit(ps@),
    ensures
        r == ranks_above(ps@, i as int, j as int),
{
    assert(score_of(ps@[i as int]) <= u32::MAX);
    assert(score_of(ps@[j as int]) <= u32::MAX);
    let si = ps[i].total_score();
    let sj = ps[j].total_score();
    if si != sj {
        return si > sj;
    }
    let a = chars_of(ps[i].callsign.as_str());
    let b = chars_of(ps[j].callsign.as_str());
    if text_less(&a, &b) {
        return true;
    }
    if text_less(&b, &a) {
        proof {
            lemma_text_lt_irreflexive(a@);
            if a@ == b@ {
                assert(text_lt(b@, a@) == text_lt(a@, a@));
            }
        }
        return false;
    }
    proof {
        if a@ != b@ {
            lemma_text_lt_total(a@, b@);
        }
    }
    i < j
}

impl App {
    /// The ranking of the final scoreboard, as indices into `participants`.
    pub fn final_standings_order(&self) -> (order: Vec<usize>)
        requires
            scores_fit(self.participants@),
        ensures
            is_standings_order(self.participants@, order@.map_values(|x: usize| x as int)),
    {
        let ps = &self.participants;
        let n = ps.len();
        let mut order: Vec<usize> = Vec::new();
        let mut i: usize = 0;
        while i < n
            invariant
                i <= n == ps@.len(),
                scores_fit(ps@),
                order@.len() == i,
                forall|k: int| 0 <= k < order@.len() ==> #[trigger] order@[k] < i,
                order@.no_duplicates(),
                forall|a: int, b: int|
                    0 <= a < b < order@.len() ==> ranks_above(
                        ps@,
                        #[trigger] order@[a] as int,
                        #[trigger] order@[b] as int,
                    ),
            decreases n - i,
        {
            let mut p: usize = 0;
            while p < order.len() && !ranks_above_exec(ps, i, order[p])
                invariant
                    i < n == ps@.len(),
                    scores_fit(ps@),
                    p <= order@.len() == i,
                    forall|k: int| 0 <= k < order@.len() ==> #[trigger] order@[k] < i,
                    forall|k: int| 0 <= k < p ==> !ranks_above(ps@, i as int, #[trigger] order@[k] as int),
                decreases order@.len() - p,
            {
                p += 1;
            }
            let ghost old_order = order@;
            order.insert(p, i);
            proof {
                assert forall|k: int| 0 <= k < order@.len() implies #[trigger] order@[k] < i + 1 by {
                    if k < p {
                        assert(order@[k] == old_order[k]);
                    } else if k > p {
                        assert(order@[k] == old_order[k - 1]);
                    }
                }
                assert forall|a: int, b: int| 0 <= a < order@.len() && 0 <= b < order@.len() && a != b implies order@[a] != order@[b] by {
                    if a != p && b != p {
                        let oa = if a < p { a } else { a - 1 };
                        let ob = if b < p { b } else { b - 1 };
                        assert(order@[a] == old_order[oa]);
                        assert(order@[b] == old_order[ob]);
                    } else if a == p {
                        let ob = if b < p { b } else { b - 1 };
                        assert(order@[b] == old_order[ob]);
                    } else {
                        let oa = if a < p { a } else { a - 1 };
                        assert(order@[a] == old_order[oa]);
                    }
                }
                assert forall|a: int, b: int| 0 <= a < b < order@.len() implies ranks_above(
                    ps@,
                    #[trigger] order@[a] as int,
                    #[trigger] order@[b] as int,
                ) by {
                    if b < p {
                        assert(order@[a] == old_order[a] && order@[b] == old_order[b]);
                    } else if a > p {
                        assert(order@[a] == old_order[a - 1] && order@[b] == old_order[b - 1]);
                    } else if b == p {
                        assert(order@[a] == old_order[a]);
                        lemma_ranks_above_order(ps@, i as int, old_order[a] as int, 0);
                    } else if a == p {
                        assert(order@[b] == old_order[b - 1]);
                        assert(ranks_above(ps@, i as int, old_order[p as int] as int));
                        if b - 1 > p {
                            lemma_ranks_above_order(
                                ps@,
                                i as int,
                                old_order[p as int] as int,
                                old_order[b - 1] as int,
                            );
                        }
                    } else {
                        // a < p < b
                        assert(order@[a] == old_order[a] && order@[b] == old_order[b - 1]);
                        lemma_ranks_above_order(ps@, i as int, old_order[a] as int, 0);
                        assert(ranks_above(ps@, old_order[a] as int, i as int));
                        assert(ranks_above(ps@, i as int, old_order[p as int] as int));
                        lemma_ranks_above_order(
                            ps@,
                            old_order[a] as int,
                            i as int,
                            old_order[p as int] as int,
                        );
                        if b - 1 > p {
                            lemma_ranks_above_order(
                                ps@,
                                old_order[a] as int,
                                old_order[p as int] as int,
                                old_order[b - 1] as int,
                            );
                        }
                    }
                }
            }
            i += 1;
        }
        let ghost ov = order@.map_values(|x: usize| x as int);
        assert forall|k: int| 0 <= k < ov.len() implies 0 <= #[trigger] ov[k] < ps@.len() by {
            assert(ov[k] == order@[k] as int);
        }
        assert forall|a: int, b: int| 0 <= a < ov.len() && 0 <= b < ov.len() && a != b implies ov[a] != ov[b] by {
            assert(ov[a] == order@[a] as int && ov[b] == order@[b] as int);
        }
        assert forall|a: int, b: int| 0 <= a < b < ov.len() implies ranks_above(ps@, #[trigger] ov[a], #[trigger] ov[b]) by {
            assert(ov[a] == order@[a] as int && ov[b] == order@[b] as int);
        }
        order
    }

    /// The final scoreboard: all participants, best total first, ties by
    /// callsign.
    pub fn final_standings(&self) -> (r: Vec<Participant>)
        requires
            scores_fit(self.participants@),
        ensures
            exists|order: Seq<int>|
                #![trigger is_standings_order(self.participants@, order)]
                is_standings_order(self.participants@, order) && r@.len() == order.len() && forall|k: int|
                    0 <= k < order.len() ==> r@[k] == #[trigger] self.participants@[order[k]],
            forall|a: int, b: int|
                0 <= a < b < r@.len() ==> score_of(#[trigger] r@[a]) >= score_of(#[trigger] r@[b]) && (
                score_of(r@[a]) == score_of(r@[b]) ==> !text_lt(r@[b].callsign@, r@[a].callsign@)),
    {
        let order = self.final_standings_order();
        let ghost ov = order@.map_values(|x: usize| x as int);
        let n = order.len();
        let mut r: Vec<Participant> = Vec::new();
        let mut k: usize = 0;
        while k < n
            invariant
                k <= n == order@.len(),
                ov == order@.map_values(|x: usize| x as int),
                is_standings_order(self.participants@, ov),
                r@.len() == k,
                forall|j: int| 0 <= j < k ==> r@[j] == #[trigger] self.participants@[ov[j]],
            decreases n - k,
        {
            assert(ov[k as int] == order@[k as int] as int);
            let idx = order[k];
            r.push(self.participants[idx].clone());
            k += 1;
        }
        proof {
            law_standings_best_first(self.participants@, ov);
            assert forall|a: int, b: int| 0 <= a < b < r@.len() implies score_of(#[trigger] r@[a])
                >= score_of(#[trigger] r@[b]) && (score_of(r@[a]) == score_of(r@[b]) ==> !text_lt(
                r@[b].callsign@,
                r@[a].callsign@,
            )) by {
                assert(r@[a] == self.participants@[ov[a]]);
                assert(r@[b] == self.participants@[ov[b]]);
            }
        }
        r
    }
}

/// The name column of the scoreboard: the operator's name, or "Unknown
/// Operator", cut to its first 24 bytes when longer; `None` where byte 24
/// falls inside a character (slicing the name there would panic).
pub fn scoreboard_name(name: &Option<String>) -> (r: Option<String>)
    ensures
        ({
            let n = match name {
                Some(s) => s@,
                None => "Unknown Operator"@,
            };
            if byte_len(n) > 24 {
                match char_index_at_byte(n, 24) {
                    Some(j) => r matches Some(t) && t@ == n.take(j),
                    None => r is None,
                }
            } else {
                r matches Some(t) && t@ == n
            }
        }),
{
    let fallback = "Unknown Operator";
    let text: &str = match name {
        Some(s) => s.as_str(),
        None => fallback,
    };
    let chars = chars_of(text);
    if str_byte_len(text) > 24 {
        match char_index_of_byte(&chars, 24) {
            Some(j) => {
                proof {
                    crate::text::lemma_char_index_at_byte_prefix(chars@, 24);
                }
                Some(string_from(&chars, 0, j))
            },
            None => None,
        }
    } else {
        Some(string_from(&chars, 0, chars.len()))
    }
}

} // verus!
