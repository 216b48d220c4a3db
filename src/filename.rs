//! The encoded file-name grammar: `digits letter? ("-" digits)? ".png"`.
use vstd::prelude::*;
use vstd::string::*;

verus! {

/// A file name of a rewrite target, split into its parts.
pub struct EncodedFilename {
    /// The pose number: one or more decimal digits.
    pub number: String,
    /// The frame letter, if any: one of `a` to `z`.
    pub letter: Option<char>,
    /// The suffix: empty, or `-` followed by one or more digits.
    pub suffix: String,
}

pub open spec fn is_digit(c: char) -> bool {
    '0' <= c && c <= '9'
}

pub open spec fn is_lower(c: char) -> bool {
    'a' <= c && c <= 'z'
}

pub open spec fn all_digits(s: Seq<char>) -> bool {
    forall|i: int| 0 <= i < s.len() ==> is_digit(#[trigger] s[i])
}

/// The extension that every encoded name ends with.
pub open spec fn png_ext() -> Seq<char> {
    seq!['.', 'p', 'n', 'g']
}

pub open spec fn letter_seq(l: Option<char>) -> Seq<char> {
    match l {
        Some(c) => seq![c],
        None => Seq::empty(),
    }
}

pub open spec fn valid_number(n: Seq<char>) -> bool {
    n.len() > 0 && all_digits(n)
}

pub open spec fn valid_letter(l: Option<char>) -> bool {
    match l {
        Some(c) => is_lower(c),
        None => true,
    }
}

pub open spec fn valid_suffix(x: Seq<char>) -> bool {
    x.len() == 0 || (x.len() >= 2 && x[0] == '-' && all_digits(x.drop_first()))
}

/// `s` is the name made of the number `n`, the letter `l` and the suffix `x`.
pub open spec fn encodes(s: Seq<char>, n: Seq<char>, l: Option<char>, x: Seq<char>) -> bool {
    &&& valid_number(n)
    &&& valid_letter(l)
    &&& valid_suffix(x)
    &&& s == n + letter_seq(l) + x + png_ext()
}

/// `s` belongs to the grammar.
pub open spec fn in_grammar(s: Seq<char>) -> bool {
    exists|n: Seq<char>, l: Option<char>, x: Seq<char>| encodes(s, n, l, x)
}

impl EncodedFilename {
    pub open spec fn encodes_name(&self, s: Seq<char>) -> bool {
        encodes(s, self.number@, self.letter, self.suffix@)
    }
}

/// `i` is the length of the run of digits that starts `s`.
pub open spec fn digit_run(s: Seq<char>, i: int) -> bool {
    &&& 0 <= i <= s.len()
    &&& forall|k: int| 0 <= k < i ==> is_digit(#[trigger] s[k])
    &&& (i == s.len() || !is_digit(s[i]))
}

/// Any split of a name is fixed by the run of digits that starts it.
pub proof fn lemma_parts(s: Seq<char>, n: Seq<char>, l: Option<char>, x: Seq<char>, i: int)
    requires
        encodes(s, n, l, x),
        digit_run(s, i),
    ensures
        n.len() == i,
        s.len() >= i + 4,
        n == s.subrange(0, i),
        l is Some <==> is_lower(s[i]),
        l is Some ==> l->0 == s[i],
        x == s.subrange(i + letter_seq(l).len(), s.len() - 4),
        s.subrange(s.len() - 4, s.len() as int) == png_ext(),
{
    let m = n.len() as int;
    let ls = letter_seq(l);
    let rest = ls + x + png_ext();
    assert(s == n + rest);
    assert(!is_digit(rest[0])) by {
        if l is Some {
            assert(rest[0] == ls[0]);
        } else if x.len() > 0 {
            assert(rest[0] == x[0]);
        } else {
            assert(rest[0] == png_ext()[0]);
        }
    }
    assert(s[m] == rest[0]);
    if m < i {
        assert(is_digit(s[m]));
    }
    if m > i {
        assert(s[i] == n[i]);
    }
    assert(m == i);
    assert(n =~= s.subrange(0, i));
    if l is Some {
        assert(s[i] == ls[0]);
    } else if x.len() > 0 {
        assert(s[i] == x[0]);
    } else {
        assert(s[i] == png_ext()[0]);
    }
    assert(x =~= s.subrange(i + ls.len(), s.len() - 4));
    assert(s.subrange(s.len() - 4, s.len() as int) =~= png_ext());
}

/// A name has at most one split into number, letter and suffix, so the
/// parser yields exactly one record or none.
pub proof fn lemma_encoding_unique(
    s: Seq<char>,
    n1: Seq<char>,
    l1: Option<char>,
    x1: Seq<char>,
    n2: Seq<char>,
    l2: Option<char>,
    x2: Seq<char>,
)
    requires
        encodes(s, n1, l1, x1),
        encodes(s, n2, l2, x2),
    ensures
        n1 == n2,
        l1 == l2,
        x1 == x2,
{
    let i = n1.len() as int;
    let rest = letter_seq(l1) + x1 + png_ext();
    assert(s == n1 + rest);
    assert(!is_digit(rest[0])) by {
        if l1 is Some {
            assert(rest[0] == letter_seq(l1)[0]);
        } else if x1.len() > 0 {
            assert(rest[0] == x1[0]);
        } else {
            assert(rest[0] == png_ext()[0]);
        }
    }
    assert(s[i] == rest[0]);
    assert forall|k: int| 0 <= k < i implies is_digit(#[trigger] s[k]) by {
        assert(s[k] == n1[k]);
    }
    assert(digit_run(s, i));
    lemma_parts(s, n1, l1, x1, i);
    lemma_parts(s, n2, l2, x2, i);
}

fn is_digit_char(c: char) -> (r: bool)
    ensures
        r == is_digit(c),
{
    '0' <= c && c <= '9'
}

fn is_lower_char(c: char) -> (r: bool)
    ensures
        r == is_lower(c),
{
    'a' <= c && c <= 'z'
}

/// Parses a file name of the grammar `digits letter? ("-" digits)? ".png"`.
/// Names outside the grammar give `None`.
pub fn parse_file_name(name: &str) -> (r: Option<EncodedFilename>)
    ensures
        match r {
            Some(f) => f.encodes_name(name@),
            None => !in_grammar(name@),
        },
{
    let ghost s = name@;
    let len = name.unicode_len();
    let mut i: usize = 0;
    while i < len && is_digit_char(name.get_char(i))
        invariant
            s == name@,
            len == s.len(),
            i <= len,
            forall|k: int| 0 <= k < i ==> is_digit(#[trigger] s[k]),
        decreases len - i,
    {
        i = i + 1;
    }
    assert(digit_run(s, i as int));
    if i == 0 {
        assert(!in_grammar(s)) by {
            if in_grammar(s) {
                let (n, l, x) = choose|n: Seq<char>, l: Option<char>, x: Seq<char>|
                    encodes(s, n, l, x);
                lemma_parts(s, n, l, x, 0);
            }
        }
        return None;
    }
    if len - i < 4 {
        assert(!in_grammar(s)) by {
            if in_grammar(s) {
                let (n, l, x) = choose|n: Seq<char>, l: Option<char>, x: Seq<char>|
                    encodes(s, n, l, x);
                lemma_parts(s, n, l, x, i as int);
            }
        }
        return None;
    }
    let mut j: usize = i;
    let mut letter: Option<char> = None;
    let c = name.get_char(i);
    if is_lower_char(c) {
        letter = Some(c);
        j = i + 1;
    }
    assert(j == i + letter_seq(letter).len());
    let e: usize = len - 4;
    let ext_ok = e >= j && name.get_char(e) == '.' && name.get_char(e + 1) == 'p'
        && name.get_char(e + 2) == 'n' && name.get_char(e + 3) == 'g';
    if !ext_ok {
        assert(!in_grammar(s)) by {
            if in_grammar(s) {
                let (n, l, x) = choose|n: Seq<char>, l: Option<char>, x: Seq<char>|
                    encodes(s, n, l, x);
                lemma_parts(s, n, l, x, i as int);
                assert(s.subrange(e as int, len as int)[0] == s[e as int]);
                assert(s.subrange(e as int, len as int)[1] == s[e + 1]);
                assert(s.subrange(e as int, len as int)[2] == s[e + 2]);
                assert(s.subrange(e as int, len as int)[3] == s[e + 3]);
            }
        }
        return None;
    }
    assert(s.subrange(e as int, len as int) =~= png_ext());
    // The suffix occupies the characters between the letter and the extension.
    let mut suffix_ok = true;
    if j < e {
        if e - j < 2 || name.get_char(j) != '-' {
            suffix_ok = false;
        } else {
            let mut k: usize = j + 1;
            while k < e && is_digit_char(name.get_char(k))
                invariant
                    s == name@,
                    len == s.len(),
                    j + 1 <= k <= e,
                    e < len,
                    forall|t: int| j + 1 <= t < k ==> is_digit(#[trigger] s[t]),
                decreases e - k,
            {
                k = k + 1;
            }
            suffix_ok = k == e;
            assert(!suffix_ok ==> !is_digit(s[k as int]));
        }
    }
    let ghost xs = s.subrange(j as int, e as int);
    if !suffix_ok {
        assert(!valid_suffix(xs)) by {
            if valid_suffix(xs) && xs.len() >= 2 {
                assert(xs[0] == s[j as int]);
                assert forall|t: int| j + 1 <= t < e implies is_digit(#[trigger] s[t]) by {
                    assert(s[t] == xs.drop_first()[t - j - 1]);
                }
            }
        }
        assert(!in_grammar(s)) by {
            if in_grammar(s) {
                let (n, l, x) = choose|n: Seq<char>, l: Option<char>, x: Seq<char>|
                    encodes(s, n, l, x);
                lemma_parts(s, n, l, x, i as int);
            }
        }
        return None;
    }
    assert(valid_suffix(xs)) by {
        if xs.len() > 0 {
            assert(xs[0] == s[j as int]);
            assert forall|t: int| 0 <= t < xs.drop_first().len() implies is_digit(
                #[trigger] xs.drop_first()[t],
            ) by {
                assert(xs.drop_first()[t] == s[j + 1 + t]);
            }
        }
    }
    let number = String::from_str(name.substring_char(0, i));
    let suffix = String::from_str(name.substring_char(j, e));
    let r = EncodedFilename { number, letter, suffix };
    assert(s =~= number@ + letter_seq(letter) + suffix@ + png_ext()) by {
        if letter is Some {
            assert(s[i as int] == c);
        }
    }
    Some(r)
}

} // verus!
