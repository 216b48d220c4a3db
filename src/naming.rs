//! Canonical names and the two numbering policies.
use vstd::prelude::*;
use vstd::string::*;
use crate::filename::png_ext;
use crate::groups::{Group, letter_le, sorted_by_letter};

verus! {

pub open spec fn digits_table() -> Seq<char> {
    seq!['0', '1', '2', '3', '4', '5', '6', '7', '8', '9']
}

/// The decimal spelling of `n`, without leading zeros.
pub open spec fn decimal(n: nat) -> Seq<char>
    decreases n,
{
    if n < 10 {
        seq![digits_table()[n as int]]
    } else {
        decimal(n / 10) + seq![digits_table()[(n % 10) as int]]
    }
}

/// `<number>.png` when `index` is `None`, else `<number>.<index>.png`.
pub open spec fn canonical(number: Seq<char>, index: Option<nat>) -> Seq<char> {
    match index {
        None => number + png_ext(),
        Some(i) => number + seq!['.'] + decimal(i) + png_ext(),
    }
}

/// The mouth policy: the last of `k` members takes the bare name, the others
/// count up from 0.
pub open spec fn mouth_index(i: int, k: int) -> Option<nat> {
    if i == k - 1 {
        None
    } else {
        Some(i as nat)
    }
}

/// The eye policy: no letter keeps the bare name; otherwise the last of `k`
/// members is pinned to 0 and the others count down from `k - 1`.
pub open spec fn eye_index(letter: Option<char>, i: int, k: int) -> Option<nat> {
    if letter is None {
        None
    } else if i == k - 1 {
        Some(0)
    } else {
        Some((k - 1 - i) as nat)
    }
}

/// A planned rename inside one folder: from one file name to another.
pub struct Rename {
    pub from: String,
    pub to: String,
}

impl Rename {
    pub open spec fn view(&self) -> (Seq<char>, Seq<char>) {
        (self.from@, self.to@)
    }
}

/// What the mouth policy renames the member at `i` of `g` to.
pub open spec fn mouth_rename(g: Group, i: int) -> (Seq<char>, Seq<char>) {
    (g.members@[i].source@, canonical(g.number@, mouth_index(i, g.members@.len() as int)))
}

/// What the eye policy renames the member at `i` of `g` to.
pub open spec fn eye_rename(g: Group, i: int) -> (Seq<char>, Seq<char>) {
    (
        g.members@[i].source@,
        canonical(g.number@, eye_index(g.members@[i].letter, i, g.members@.len() as int)),
    )
}

/// The renames of one group, in member order.
pub open spec fn group_plan(g: Group, eye: bool) -> Seq<(Seq<char>, Seq<char>)> {
    Seq::new(
        g.members@.len(),
        |i: int|
            if eye {
                eye_rename(g, i)
            } else {
                mouth_rename(g, i)
            },
    )
}

fn digit_str(d: usize) -> (r: &'static str)
    requires
        d < 10,
    ensures
        r@ == seq![digits_table()[d as int]],
{
    let table = "0123456789";
    proof {
        reveal_strlit("0123456789");
    }
    assert(table@ =~= digits_table());
    table.substring_char(d, d + 1)
}

/// Spells `n` in decimal.
pub fn decimal_string(n: usize) -> (r: String)
    ensures
        r@ == decimal(n as nat),
    decreases n,
{
    if n < 10 {
        String::from_str(digit_str(n))
    } else {
        let mut s = decimal_string(n / 10);
        s.append(digit_str(n % 10));
        s
    }
}

/// Builds `<number>.png` or `<number>.<index>.png`.
pub fn canonical_name(number: &String, index: Option<usize>) -> (r: String)
    ensures
        r@ == canonical(
            number@,
            match index {
                Some(i) => Some(i as nat),
                None => None,
            },
        ),
{
    let mut s = number.clone();
    proof {
        reveal_strlit(".");
        reveal_strlit(".png");
    }
    match index {
        Some(i) => {
            s.append(".");
            let d = decimal_string(i);
            s.append(d.as_str());
        },
        None => {},
    }
    s.append(".png");
    assert(".png"@ =~= png_ext());
    s
}

/// Plans the renames of one group under the mouth or the eye policy.
pub fn plan_group(g: &Group, eye: bool) -> (r: Vec<Rename>)
    ensures
        r@.map_values(|x: Rename| x.view()) == group_plan(*g, eye),
{
    let k = g.members.len();
    let mut r: Vec<Rename> = Vec::new();
    let mut i: usize = 0;
    while i < k
        invariant
            k == g.members@.len(),
            i <= k,
            r@.map_values(|x: Rename| x.view()) =~= group_plan(*g, eye).take(i as int),
        decreases k - i,
    {
        let m = &g.members[i];
        let index: Option<usize> = if eye {
            if m.letter.is_none() {
                None
            } else if i == k - 1 {
                Some(0)
            } else {
                Some(k - 1 - i)
            }
        } else if i == k - 1 {
            None
        } else {
            Some(i)
        };
        let to = canonical_name(&g.number, index);
        let ghost before = r@;
        r.push(Rename { from: m.source.clone(), to });
        assert(r@.map_values(|x: Rename| x.view()) =~= before.map_values(|x: Rename| x.view()).push(
            group_plan(*g, eye)[i as int],
        ));
        i = i + 1;
    }
    r
}

/// In a sorted mouth group, the member with the greatest letter, the last,
/// takes the bare name `<number>.png`.
pub proof fn lemma_mouth_last_bare(g: Group)
    requires
        g.members@.len() >= 1,
        sorted_by_letter(g.members@),
    ensures
        forall|i: int|
            0 <= i < g.members@.len() ==> letter_le(
                #[trigger] g.members@[i].letter,
                g.members@.last().letter,
            ),
        group_plan(g, false).last().1 == g.number@ + png_ext(),
{
    assert forall|i: int| 0 <= i < g.members@.len() implies letter_le(
        #[trigger] g.members@[i].letter,
        g.members@.last().letter,
    ) by {
        let j = g.members@.len() - 1;
        if i < j {
            assert(letter_le(g.members@[i].letter, g.members@[j].letter));
        } else {
            let l = g.members@[i].letter;
            assert(letter_le(l, l));
        }
    }
}

/// In a sorted eye group where some member has a letter, the member with the
/// greatest letter, the last, is pinned to `<number>.0.png`.
pub proof fn lemma_eye_last_zero(g: Group)
    requires
        g.members@.len() >= 1,
        sorted_by_letter(g.members@),
        exists|i: int| 0 <= i < g.members@.len() && (#[trigger] g.members@[i]).letter is Some,
    ensures
        forall|i: int|
            0 <= i < g.members@.len() ==> letter_le(
                #[trigger] g.members@[i].letter,
                g.members@.last().letter,
            ),
        group_plan(g, true).last().1 == g.number@ + seq!['.', '0'] + png_ext(),
{
    lemma_mouth_last_bare(g);
    let i = choose|i: int| 0 <= i < g.members@.len() && (#[trigger] g.members@[i]).letter is Some;
    assert(letter_le(g.members@[i].letter, g.members@.last().letter));
    assert(decimal(0) =~= seq!['0']);
    assert(g.number@ + seq!['.'] + decimal(0) + png_ext() =~= g.number@ + seq!['.', '0'] + png_ext());
}

/// In an eye group where every member has a letter, the indices taken in
/// ascending letter order are `k - 1, k - 2, ..., 1, 0`.
pub proof fn lemma_eye_descent(g: Group)
    requires
        forall|i: int| 0 <= i < g.members@.len() ==> (#[trigger] g.members@[i]).letter is Some,
    ensures
        forall|i: int|
            0 <= i < g.members@.len() ==> #[trigger] eye_index(g.members@[i].letter, i, g.members@.len() as int)
                == Some((g.members@.len() - 1 - i) as nat),
{
}

} // verus!
