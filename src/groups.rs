//! Partitioning parsed names by pose number, each group ordered by frame letter.
use vstd::prelude::*;
use vstd::multiset::Multiset;
use vstd::seq_lib::*;
use crate::filename::EncodedFilename;

verus! {

broadcast use vstd::seq_lib::group_to_multiset_ensures;

/// A parsed name together with the file name it was parsed from.
pub struct Record {
    pub file: EncodedFilename,
    pub source: String,
}

/// One member of a group: what naming needs of a record besides its number.
pub struct Member {
    pub letter: Option<char>,
    pub suffix: String,
    pub source: String,
}

/// The records that share one pose number.
pub struct Group {
    pub number: String,
    pub members: Vec<Member>,
}

/// A member as plain values: letter, suffix and source name.
pub type MemberView = (Option<char>, Seq<char>, Seq<char>);

impl Member {
    pub open spec fn view(&self) -> MemberView {
        (self.letter, self.suffix@, self.source@)
    }
}

impl Record {
    pub open spec fn member_view(&self) -> MemberView {
        (self.file.letter, self.file.suffix@, self.source@)
    }
}

/// The order of frame letters: no letter first, then `a` to `z`.
pub open spec fn letter_le(a: Option<char>, b: Option<char>) -> bool {
    match (a, b) {
        (None, _) => true,
        (Some(_), None) => false,
        (Some(x), Some(y)) => x <= y,
    }
}

pub open spec fn members_view(ms: Seq<Member>) -> Seq<MemberView> {
    ms.map_values(|m: Member| m.view())
}

/// The members are in ascending letter order.
pub open spec fn sorted_by_letter(ms: Seq<Member>) -> bool {
    forall|i: int, j: int| 0 <= i < j < ms.len() ==> letter_le(ms[i].letter, ms[j].letter)
}

/// The multiset of the members of the records whose number is `k`.
pub open spec fn bucket(recs: Seq<Record>, k: Seq<char>) -> Multiset<MemberView>
    decreases recs.len(),
{
    if recs.len() == 0 {
        Multiset::empty()
    } else {
        let b = bucket(recs.drop_last(), k);
        if recs.last().file.number@ == k {
            b.insert(recs.last().member_view())
        } else {
            b
        }
    }
}

/// `gs` is the grouping of `recs`: one group per number, each nonempty, in
/// ascending letter order, holding exactly the records with that number.
pub open spec fn is_grouping(gs: Seq<Group>, recs: Seq<Record>) -> bool {
    &&& forall|a: int, b: int|
        0 <= a < b < gs.len() ==> gs[a].number@ != gs[b].number@
    &&& forall|a: int|
        0 <= a < gs.len() ==> {
            &&& (#[trigger] gs[a]).members@.len() > 0
            &&& sorted_by_letter(gs[a].members@)
            &&& members_view(gs[a].members@).to_multiset() == bucket(recs, gs[a].number@)
        }
    &&& forall|t: int|
        0 <= t < recs.len() ==> exists|a: int|
            0 <= a < gs.len() && (#[trigger] gs[a]).number@ == (#[trigger] recs[t]).file.number@
}

pub fn letter_le_exec(a: Option<char>, b: Option<char>) -> (r: bool)
    ensures
        r == letter_le(a, b),
{
    match (a, b) {
        (None, _) => true,
        (Some(_), None) => false,
        (Some(x), Some(y)) => x <= y,
    }
}

proof fn lemma_bucket_step(recs: Seq<Record>, i: int, k: Seq<char>)
    requires
        0 <= i < recs.len(),
    ensures
        bucket(recs.take(i + 1), k) == if recs[i].file.number@ == k {
            bucket(recs.take(i), k).insert(recs[i].member_view())
        } else {
            bucket(recs.take(i), k)
        },
{
    assert(recs.take(i + 1).drop_last() =~= recs.take(i));
}

/// Inserts `m` into the sorted `ms` after every member whose letter is not greater.
fn insert_sorted(ms: &mut Vec<Member>, m: Member)
    requires
        sorted_by_letter(old(ms)@),
    ensures
        sorted_by_letter(final(ms)@),
        members_view(final(ms)@).to_multiset() == members_view(old(ms)@).to_multiset().insert(
            m.view(),
        ),
        final(ms)@.len() == old(ms)@.len() + 1,
{
    let mut p: usize = 0;
    while p < ms.len() && letter_le_exec(ms[p].letter, m.letter)
        invariant
            p <= ms@.len(),
            forall|q: int| 0 <= q < p ==> letter_le(#[trigger] ms@[q].letter, m.letter),
        decreases ms@.len() - p,
    {
        p = p + 1;
    }
    let ghost before = ms@;
    let ghost mv = m.view();
    ms.insert(p, m);
    assert(members_view(ms@) =~= members_view(before).insert(p as int, mv));
    proof {
        to_multiset_insert(members_view(before), p as int, mv);
    }
    assert forall|i: int, j: int| 0 <= i < j < ms@.len() implies letter_le(
        ms@[i].letter,
        ms@[j].letter,
    ) by {
        if j < p {
        } else if j == p {
        } else if i < p {
            assert(ms@[j] == before[j - 1]);
        } else if i == p {
            assert(ms@[j] == before[j - 1]);
            if p < before.len() {
                assert(!letter_le(before[p as int].letter, m.letter));
                assert(letter_le(before[p as int].letter, before[j - 1].letter));
            }
        } else {
            assert(ms@[i] == before[i - 1]);
            assert(ms@[j] == before[j - 1]);
        }
    }
}

/// Partitions the records by number. Each group holds exactly the records
/// with its number, in ascending letter order.
pub fn build_groups(records: &Vec<Record>) -> (gs: Vec<Group>)
    ensures
        is_grouping(gs@, records@),
{
    let mut gs: Vec<Group> = Vec::new();
    let mut i: usize = 0;
    while i < records.len()
        invariant
            i <= records@.len(),
            is_grouping(gs@, records@.take(i as int)),
        decreases records@.len() - i,
    {
        let r = &records[i];
        let m = Member { letter: r.file.letter, suffix: r.file.suffix.clone(), source: r.source.clone() };
        assert(m.view() == r.member_view());
        let ghost old_gs = gs@;
        let ghost prev = records@.take(i as int);
        let ghost next = records@.take(i + 1);
        proof {
            assert forall|k: Seq<char>| bucket(next, k) == if r.file.number@ == k {
                bucket(prev, k).insert(r.member_view())
            } else {
                bucket(prev, k)
            } by {
                lemma_bucket_step(records@, i as int, k);
            }
        }
        let mut a: usize = 0;
        while a < gs.len() && gs[a].number != r.file.number
            invariant
                a <= gs@.len(),
                forall|b: int| 0 <= b < a ==> (#[trigger] gs@[b]).number@ != r.file.number@,
            decreases gs@.len() - a,
        {
            a = a + 1;
        }
        if a < gs.len() {
            let mut g = gs.remove(a);
            insert_sorted(&mut g.members, m);
            gs.insert(a, g);
            assert(gs@ =~= old_gs.update(a as int, gs@[a as int]));
            assert forall|b: int| 0 <= b < gs@.len() implies {
                &&& (#[trigger] gs@[b]).members@.len() > 0
                &&& sorted_by_letter(gs@[b].members@)
                &&& members_view(gs@[b].members@).to_multiset() == bucket(next, gs@[b].number@)
            } by {
                if b != a {
                    assert(gs@[b] == old_gs[b]);
                    assert(old_gs[b].number@ != old_gs[a as int].number@);
                }
            }
            assert forall|t: int| 0 <= t < next.len() implies exists|b: int|
                0 <= b < gs@.len() && (#[trigger] gs@[b]).number@ == (#[trigger] next[t]).file.number@ by {
                if t < i {
                    assert(next[t] == prev[t]);
                    let b = choose|b: int| 0 <= b < old_gs.len() && (#[trigger] old_gs[b]).number@ == prev[t].file.number@;
                    assert(gs@[b].number@ == old_gs[b].number@);
                } else {
                    assert(gs@[a as int].number@ == next[t].file.number@);
                }
            }
        } else {
            let mut members: Vec<Member> = Vec::new();
            members.push(m);
            let g = Group { number: r.file.number.clone(), members };
            gs.push(g);
            assert(members_view(gs@[a as int].members@) =~= seq![m.view()]);
            assert(bucket(prev, r.file.number@) =~= Multiset::empty()) by {
                lemma_bucket_absent(prev, r.file.number@, old_gs);
            }
            assert(seq![m.view()].to_multiset() =~= Multiset::empty().insert(m.view())) by {
                assert(seq![m.view()].drop_first() =~= Seq::<MemberView>::empty());
            }
            assert forall|b: int| 0 <= b < gs@.len() implies {
                &&& (#[trigger] gs@[b]).members@.len() > 0
                &&& sorted_by_letter(gs@[b].members@)
                &&& members_view(gs@[b].members@).to_multiset() == bucket(next, gs@[b].number@)
            } by {
                if b != a {
                    assert(gs@[b] == old_gs[b]);
                }
            }
            assert forall|t: int| 0 <= t < next.len() implies exists|b: int|
                0 <= b < gs@.len() && (#[trigger] gs@[b]).number@ == (#[trigger] next[t]).file.number@ by {
                if t < i {
                    assert(next[t] == prev[t]);
                    let b = choose|b: int| 0 <= b < old_gs.len() && (#[trigger] old_gs[b]).number@ == prev[t].file.number@;
                    assert(gs@[b] == old_gs[b]);
                } else {
                    assert(gs@[a as int].number@ == next[t].file.number@);
                }
            }
        }
        i = i + 1;
    }
    assert(records@.take(i as int) =~= records@);
    gs
}

/// A number that no group carries has an empty bucket.
proof fn lemma_bucket_absent(recs: Seq<Record>, k: Seq<char>, gs: Seq<Group>)
    requires
        forall|t: int|
            0 <= t < recs.len() ==> exists|a: int|
                0 <= a < gs.len() && (#[trigger] gs[a]).number@ == (#[trigger] recs[t]).file.number@,
        forall|a: int| 0 <= a < gs.len() ==> (#[trigger] gs[a]).number@ != k,
    ensures
        bucket(recs, k) =~= Multiset::empty(),
    decreases recs.len(),
{
    if recs.len() > 0 {
        let last = recs.len() - 1;
        assert(recs.last() == recs[last]);
        assert forall|t: int| 0 <= t < recs.drop_last().len() implies exists|a: int|
            0 <= a < gs.len() && (#[trigger] gs[a]).number@ == (#[trigger] recs.drop_last()[t]).file.number@ by {
            assert(recs.drop_last()[t] == recs[t]);
        }
        lemma_bucket_absent(recs.drop_last(), k, gs);
        let a = choose|a: int| 0 <= a < gs.len() && (#[trigger] gs[a]).number@ == recs[last].file.number@;
        assert(gs[a].number@ != k);
    }
}

} // verus!
