//! Paths as strings, and the labels of the subfolders.
use vstd::prelude::*;
use vstd::string::*;

verus! {

/// `child` appended to `root` as one more path component, `/` separated.
pub open spec fn joined(root: Seq<char>, child: Seq<char>) -> Seq<char> {
    if root.len() == 0 || root.last() == '/' {
        root + child
    } else {
        root + seq!['/'] + child
    }
}

/// Appends the relative component `child` to `root`.
pub fn join(root: &String, child: &str) -> (r: String)
    ensures
        r@ == joined(root@, child@),
{
    let mut s = root.clone();
    let n = root.as_str().unicode_len();
    proof {
        reveal_strlit("/");
    }
    if n != 0 && root.as_str().get_char(n - 1) != '/' {
        s.append("/");
    }
    s.append(child);
    s
}

/// The label of the mouth subfolder.
pub open spec fn mouth_label() -> Seq<char> {
    seq!['口']
}

/// The label of the eye subfolder.
pub open spec fn eye_label() -> Seq<char> {
    seq!['目']
}

/// The label of the face subfolder.
pub open spec fn face_label() -> Seq<char> {
    seq!['顔']
}

/// The label that the face subfolder is given.
pub open spec fn face_new_label() -> Seq<char> {
    seq!['顔', '色']
}

} // verus!
