//! The Kitsune Yukkuri layout: a mouth folder, an eye folder and a face folder.
use vstd::prelude::*;
use vstd::seq_lib::*;
use crate::filename::{encodes, in_grammar, lemma_encoding_unique, letter_seq, parse_file_name, png_ext, valid_number};
use crate::groups::{Group, MemberView, Record, bucket, build_groups, is_grouping, members_view};
use crate::naming::{Rename, canonical, group_plan, plan_group};
use crate::paths::{eye_label, face_label, face_new_label, join, joined, mouth_label};

verus! {

/// The renamer of the Kitsune Yukkuri layout, rooted at `input_folder`.
pub struct KitsuneYukkuri {
    pub input_folder: String,
}

pub open spec fn names_view(names: Seq<String>) -> Seq<Seq<char>> {
    names.map_values(|s: String| s@)
}

pub open spec fn sources(recs: Seq<Record>) -> Seq<Seq<char>> {
    recs.map_values(|r: Record| r.source@)
}

/// `recs` are the names of `names` that belong to the grammar, in order,
/// each with its parts.
pub open spec fn records_of(recs: Seq<Record>, names: Seq<String>) -> bool {
    &&& sources(recs) == names_view(names).filter(|s: Seq<char>| in_grammar(s))
    &&& forall|t: int| 0 <= t < recs.len() ==> (#[trigger] recs[t]).file.encodes_name(recs[t].source@)
}

/// The renames of the groups `gs`, one group after another.
pub open spec fn plan_of(gs: Seq<Group>, eye: bool) -> Seq<(Seq<char>, Seq<char>)>
    decreases gs.len(),
{
    if gs.len() == 0 {
        Seq::empty()
    } else {
        plan_of(gs.drop_last(), eye) + group_plan(gs.last(), eye)
    }
}

/// `r` renames the names of `names` in the grammar, grouped by number, under
/// the eye policy if `eye` and the mouth policy otherwise. Groups come in
/// some order; names outside the grammar are left alone.
pub open spec fn is_plan(r: Seq<(Seq<char>, Seq<char>)>, names: Seq<String>, eye: bool) -> bool {
    exists|recs: Seq<Record>, gs: Seq<Group>|
        records_of(recs, names) && is_grouping(gs, recs) && r == plan_of(gs, eye)
}

pub open spec fn renames_view(r: Seq<Rename>) -> Seq<(Seq<char>, Seq<char>)> {
    r.map_values(|x: Rename| x.view())
}

/// Parses the file names, keeping those of the grammar.
pub fn collect_records(names: &Vec<String>) -> (recs: Vec<Record>)
    ensures
        records_of(recs@, names@),
{
    let mut recs: Vec<Record> = Vec::new();
    let mut i: usize = 0;
    proof {
        reveal(Seq::filter);
        assert(names_view(names@.take(0)) =~= Seq::<Seq<char>>::empty());
        assert(names_view(names@.take(0)).filter(|s: Seq<char>| in_grammar(s)) =~= Seq::empty());
        assert(sources(recs@) =~= Seq::empty());
    }
    while i < names.len()
        invariant
            i <= names@.len(),
            records_of(recs@, names@.take(i as int)),
        decreases names@.len() - i,
    {
        let ghost before = recs@;
        assert(names_view(names@.take(i + 1)) =~= names_view(names@.take(i as int)).push(names@[i as int]@));
        proof {
            names_view(names@.take(i as int)).lemma_filter_push(
                names@[i as int]@,
                |s: Seq<char>| in_grammar(s),
            );
        }
        match parse_file_name(names[i].as_str()) {
            Some(file) => {
                recs.push(Record { file, source: names[i].clone() });
                assert(sources(recs@) =~= sources(before).push(names@[i as int]@));
                assert(in_grammar(names@[i as int]@));
            },
            None => {},
        }
        i = i + 1;
    }
    assert(names@.take(i as int) =~= names@);
    recs
}

/// Plans the renames of a folder whose entries are `names`.
pub fn plan_renames(names: &Vec<String>, eye: bool) -> (r: Vec<Rename>)
    ensures
        is_plan(renames_view(r@), names@, eye),
{
    let recs = collect_records(names);
    let gs = build_groups(&recs);
    let mut r: Vec<Rename> = Vec::new();
    let mut a: usize = 0;
    while a < gs.len()
        invariant
            a <= gs@.len(),
            renames_view(r@) == plan_of(gs@.take(a as int), eye),
        decreases gs@.len() - a,
    {
        let mut p = plan_group(&gs[a], eye);
        let ghost before = r@;
        let ghost pv = p@;
        r.append(&mut p);
        assert(gs@.take(a + 1).drop_last() =~= gs@.take(a as int));
        assert(renames_view(r@) =~= renames_view(before) + renames_view(pv));
        a = a + 1;
    }
    assert(gs@.take(a as int) =~= gs@);
    r
}

/// A record of a bucket stands in the records with that number.
proof fn lemma_bucket_member(recs: Seq<Record>, k: Seq<char>, v: MemberView)
    requires
        bucket(recs, k).count(v) > 0,
    ensures
        exists|t: int|
            0 <= t < recs.len() && (#[trigger] recs[t]).file.number@ == k && recs[t].member_view() == v,
    decreases recs.len(),
{
    let last = recs.len() - 1;
    if recs.last().file.number@ == k && recs.last().member_view() == v {
        assert(recs[last] == recs.last());
    } else {
        lemma_bucket_member(recs.drop_last(), k, v);
        let t = choose|t: int|
            0 <= t < recs.drop_last().len() && (#[trigger] recs.drop_last()[t]).file.number@ == k
                && recs.drop_last()[t].member_view() == v;
        assert(recs[t] == recs.drop_last()[t]);
    }
}

/// Records with distinct source names give each member at most once.
proof fn lemma_bucket_count_at_most_one(recs: Seq<Record>, k: Seq<char>, v: MemberView)
    requires
        sources(recs).no_duplicates(),
    ensures
        bucket(recs, k).count(v) <= 1,
    decreases recs.len(),
{
    if recs.len() > 0 {
        let rest = recs.drop_last();
        let last = recs.len() - 1;
        assert(sources(rest) =~= sources(recs).drop_last());
        assert forall|i: int, j: int|
            0 <= i < sources(rest).len() && 0 <= j < sources(rest).len() && i != j implies sources(
            rest,
        )[i] != sources(rest)[j] by {
            assert(sources(rest)[i] == sources(recs)[i]);
            assert(sources(rest)[j] == sources(recs)[j]);
        }
        lemma_bucket_count_at_most_one(rest, k, v);
        if recs.last().file.number@ == k && recs.last().member_view() == v && bucket(rest, k).count(
            v,
        ) > 0 {
            lemma_bucket_member(rest, k, v);
            let t = choose|t: int|
                0 <= t < rest.len() && (#[trigger] rest[t]).file.number@ == k && rest[t].member_view()
                    == v;
            assert(sources(recs)[t] == sources(recs)[last]);
        }
    }
}

/// Filtering keeps a sequence free of duplicates.
proof fn lemma_filter_no_duplicates(s: Seq<Seq<char>>, p: spec_fn(Seq<char>) -> bool)
    requires
        s.no_duplicates(),
    ensures
        s.filter(p).no_duplicates(),
    decreases s.len(),
{
    reveal(Seq::filter);
    if s.len() > 0 {
        let rest = s.drop_last();
        assert forall|i: int, j: int|
            0 <= i < rest.len() && 0 <= j < rest.len() && i != j implies rest[i] != rest[j] by {
            assert(rest[i] == s[i] && rest[j] == s[j]);
        }
        lemma_filter_no_duplicates(rest, p);
        let f = rest.filter(p);
        if p(s.last()) {
            if f.contains(s.last()) {
                rest.lemma_filter_contains_rev(p, s.last());
                let i = choose|i: int| 0 <= i < rest.len() && rest[i] == s.last();
                assert(s[i] == s[s.len() - 1]);
            }
            let g = f.push(s.last());
            assert(s.filter(p) == g);
            assert forall|i: int, j: int|
                0 <= i < g.len() && 0 <= j < g.len() && i != j implies g[i] != g[j] by {
                if i == f.len() {
                    assert(!f.contains(g[j]) ==> g[j] != s.last()) by {
                        if j < f.len() && g[j] == s.last() {
                            assert(f.contains(g[j]));
                        }
                    }
                } else if j == f.len() {
                    if g[i] == s.last() {
                        assert(f[i] == g[i]);
                        assert(f.contains(s.last()));
                    }
                }
            }
        } else {
            assert(s.filter(p) == f);
        }
    }
}

/// A canonical name `<number>.png`.
pub open spec fn is_bare(s: Seq<char>) -> bool {
    exists|n: Seq<char>| valid_number(n) && s == n + png_ext()
}

/// Every member of every group of `gs` over canonical names is named
/// `<number>.png`, has no letter, and stands alone in its group.
proof fn lemma_bare_groups(names: Seq<String>, recs: Seq<Record>, gs: Seq<Group>, a: int)
    requires
        forall|i: int| 0 <= i < names.len() ==> is_bare(#[trigger] names[i]@),
        names_view(names).no_duplicates(),
        records_of(recs, names),
        is_grouping(gs, recs),
        0 <= a < gs.len(),
    ensures
        gs[a].members@.len() == 1,
        gs[a].members@[0].letter is None,
        gs[a].members@[0].source@ == gs[a].number@ + png_ext(),
{
    let g = gs[a];
    let ms = members_view(g.members@);
    let v = ms[0];
    assert(ms.contains(v));
    to_multiset_contains(ms, v);
    lemma_bucket_member(recs, g.number@, v);
    let t = choose|t: int|
        0 <= t < recs.len() && (#[trigger] recs[t]).file.number@ == g.number@ && recs[t].member_view() == v;
    let src = recs[t].source@;
    assert(sources(recs)[t] == src);
    assert(sources(recs).contains(src));
    names_view(names).lemma_filter_contains_rev(|s: Seq<char>| in_grammar(s), src);
    let j = choose|j: int| 0 <= j < names_view(names).len() && names_view(names)[j] == src;
    assert(is_bare(names[j]@));
    let n = choose|n: Seq<char>| valid_number(n) && names[j]@ == n + png_ext();
    assert(encodes(src, n, None, Seq::empty())) by {
        assert(src =~= n + letter_seq(None) + Seq::<char>::empty() + png_ext());
    }
    lemma_encoding_unique(src, n, None, Seq::empty(), recs[t].file.number@, recs[t].file.letter, recs[t].file.suffix@);
    assert(g.members@[0].view() == ms[0]);
    assert(src =~= g.number@ + png_ext());
    lemma_filter_no_duplicates(names_view(names), |s: Seq<char>| in_grammar(s));
    lemma_bucket_count_at_most_one(recs, g.number@, v);
    if g.members@.len() >= 2 {
        assert(ms[1] == v) by {
            let u = ms[1];
            assert(ms.contains(u));
            to_multiset_contains(ms, u);
            lemma_bucket_member(recs, g.number@, u);
            let t2 = choose|t2: int|
                0 <= t2 < recs.len() && (#[trigger] recs[t2]).file.number@ == g.number@ && recs[t2].member_view() == u;
            let src2 = recs[t2].source@;
            assert(sources(recs)[t2] == src2);
            assert(sources(recs).contains(src2));
            names_view(names).lemma_filter_contains_rev(|s: Seq<char>| in_grammar(s), src2);
            let j2 = choose|j2: int| 0 <= j2 < names_view(names).len() && names_view(names)[j2] == src2;
            assert(is_bare(names[j2]@));
            let n2 = choose|n2: Seq<char>| valid_number(n2) && names[j2]@ == n2 + png_ext();
            assert(encodes(src2, n2, None, Seq::empty())) by {
                assert(src2 =~= n2 + letter_seq(None) + Seq::<char>::empty() + png_ext());
            }
            lemma_encoding_unique(src2, n2, None, Seq::empty(), recs[t2].file.number@, recs[t2].file.letter, recs[t2].file.suffix@);
            assert(src2 =~= g.number@ + png_ext());
        }
        to_multiset_remove(ms, 0);
        assert(ms.remove(0)[0] == v);
        assert(ms.remove(0).contains(v));
        to_multiset_contains(ms.remove(0), v);
    }
}

/// The renames of groups each of whose renames keeps its name keep every name.
proof fn lemma_plan_keeps_names(gs: Seq<Group>, eye: bool)
    requires
        forall|a: int, i: int|
            0 <= a < gs.len() && 0 <= i < gs[a].members@.len() ==> #[trigger] group_plan(gs[a], eye)[i].0
                == group_plan(gs[a], eye)[i].1,
    ensures
        forall|t: int| 0 <= t < plan_of(gs, eye).len() ==> #[trigger] plan_of(gs, eye)[t].0 == plan_of(gs, eye)[t].1,
    decreases gs.len(),
{
    if gs.len() > 0 {
        let rest = gs.drop_last();
        assert forall|a: int, i: int|
            0 <= a < rest.len() && 0 <= i < rest[a].members@.len() implies #[trigger] group_plan(rest[a], eye)[i].0
                == group_plan(rest[a], eye)[i].1 by {
            assert(rest[a] == gs[a]);
        }
        lemma_plan_keeps_names(rest, eye);
        let p = plan_of(rest, eye);
        let q = group_plan(gs.last(), eye);
        assert forall|t: int| 0 <= t < plan_of(gs, eye).len() implies #[trigger] plan_of(gs, eye)[t].0 == plan_of(gs, eye)[t].1 by {
            if t < p.len() {
                assert(plan_of(gs, eye)[t] == p[t]);
            } else {
                assert(plan_of(gs, eye)[t] == q[t - p.len()]);
                assert(gs.last() == gs[gs.len() - 1]);
            }
        }
    }
}

/// On a folder that holds only canonical names `<number>.png`, each name
/// once, both the mouth plan and the eye plan rename every name to itself.
pub proof fn lemma_canonical_names_kept(names: Seq<String>, r: Seq<(Seq<char>, Seq<char>)>, eye: bool)
    requires
        forall|i: int| 0 <= i < names.len() ==> is_bare(#[trigger] names[i]@),
        names_view(names).no_duplicates(),
        is_plan(r, names, eye),
    ensures
        forall|t: int| 0 <= t < r.len() ==> #[trigger] r[t].0 == r[t].1,
{
    let (recs, gs) = choose|recs: Seq<Record>, gs: Seq<Group>|
        records_of(recs, names) && is_grouping(gs, recs) && r == plan_of(gs, eye);
    assert forall|a: int, i: int|
        0 <= a < gs.len() && 0 <= i < gs[a].members@.len() implies #[trigger] group_plan(gs[a], eye)[i].0
            == group_plan(gs[a], eye)[i].1 by {
        lemma_bare_groups(names, recs, gs, a);
        assert(i == 0);
        assert(canonical(gs[a].number@, None) == gs[a].number@ + png_ext());
    }
    lemma_plan_keeps_names(gs, eye);
}

impl KitsuneYukkuri {
    pub fn get_mouth_directory(&self) -> (r: String)
        ensures
            r@ == joined(self.input_folder@, mouth_label()),
    {
        proof {
            reveal_strlit("口");
        }
        join(&self.input_folder, "口")
    }

    pub fn get_eye_directory(&self) -> (r: String)
        ensures
            r@ == joined(self.input_folder@, eye_label()),
    {
        proof {
            reveal_strlit("目");
        }
        join(&self.input_folder, "目")
    }

    pub fn get_face_directory(&self) -> (r: String)
        ensures
            r@ == joined(self.input_folder@, face_label()),
    {
        proof {
            reveal_strlit("顔");
        }
        join(&self.input_folder, "顔")
    }

    /// The renames inside the mouth folder, whose entries are `names`: in each
    /// group the last takes `<number>.png`, the others `<number>.<i>.png`.
    pub fn rename_mouse_folder(&self, names: &Vec<String>) -> (r: Vec<Rename>)
        ensures
            is_plan(renames_view(r@), names@, false),
    {
        plan_renames(names, false)
    }

    /// The renames inside the eye folder, whose entries are `names`: in each
    /// group a name without letter stays `<number>.png`; the others count down
    /// to the last, pinned to `<number>.0.png`.
    pub fn rename_eye_folder(&self, names: &Vec<String>) -> (r: Vec<Rename>)
        ensures
            is_plan(renames_view(r@), names@, true),
    {
        plan_renames(names, true)
    }

    /// The rename of the face folder to its new label.
    pub fn rename_face_folder(&self) -> (r: Rename)
        ensures
            r.from@ == joined(self.input_folder@, face_label()),
            r.to@ == joined(self.input_folder@, face_new_label()),
    {
        proof {
            reveal_strlit("顔色");
        }
        Rename { from: self.get_face_directory(), to: join(&self.input_folder, "顔色") }
    }
}

} // verus!
