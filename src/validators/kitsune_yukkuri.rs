//! Pre-flight checks of the Kitsune Yukkuri layout. The filesystem is read
//! by the caller, which hands in what it found.
use vstd::prelude::*;
use vstd::string::*;
use crate::error::{Errors, MultipleErrors, ValidationError, into_result};
use crate::filename::png_ext;
use crate::paths::{eye_label, join, joined, mouth_label};

verus! {

/// The validator of the Kitsune Yukkuri layout, rooted at `input_folder`.
pub struct KitsuneYukkuri {
    pub input_folder: String,
}

/// What reading a folder gave: the names of its entries, or the operating
/// system's message.
pub type Listing = Result<Vec<String>, String>;

/// The extension of the file name `s` is `png`: it ends with `.png` after a
/// nonempty stem.
pub open spec fn has_png_ext(s: Seq<char>) -> bool {
    s.len() > 4 && s.subrange(s.len() - 4, s.len() as int) == png_ext()
}

pub open spec fn any_png(names: Seq<String>) -> bool {
    exists|i: int| 0 <= i < names.len() && has_png_ext(#[trigger] names[i]@)
}

/// How many errors the folder `listing` gives: none when it holds a `png`.
pub open spec fn folder_error_count(listing: Listing) -> nat {
    match listing {
        Ok(names) => if any_png(names@) {
            0
        } else {
            1
        },
        Err(_) => 1,
    }
}

/// `errs` are the errors of the folder at `path` whose reading gave `listing`.
pub open spec fn folder_report(errs: Seq<Errors>, path: Seq<char>, listing: Listing) -> bool {
    &&& errs.len() == folder_error_count(listing)
    &&& errs.len() == 1 ==> match (listing, errs[0]) {
        (Ok(_), Errors::Validation(ValidationError::NoPngFilesInSubDir(p))) => p@ == path,
        (Err(m), Errors::Io(m2, p)) => m2 == m && p@ == path,
        _ => false,
    }
}

/// `errs` are the errors of the mouth folder, then those of the eye folder,
/// of the root `root`.
pub open spec fn sub_folder_report(errs: Seq<Errors>, root: Seq<char>, listings: Seq<Listing>) -> bool {
    let c = folder_error_count(listings[0]) as int;
    &&& listings.len() == 2
    &&& errs.len() == c + folder_error_count(listings[1])
    &&& folder_report(errs.take(c), joined(root, mouth_label()), listings[0])
    &&& folder_report(errs.skip(c), joined(root, eye_label()), listings[1])
}

/// Tests whether the extension of the file name `name` is `png`.
pub fn has_png_extension(name: &str) -> (r: bool)
    ensures
        r == has_png_ext(name@),
{
    let n = name.unicode_len();
    if n <= 4 {
        return false;
    }
    let r = name.get_char(n - 4) == '.' && name.get_char(n - 3) == 'p' && name.get_char(n - 2) == 'n'
        && name.get_char(n - 1) == 'g';
    let ghost tail = name@.subrange(n - 4, n as int);
    assert(tail[0] == name@[n - 4] && tail[1] == name@[n - 3] && tail[2] == name@[n - 2] && tail[3]
        == name@[n - 1]);
    if r {
        assert(tail =~= png_ext());
    }
    r
}

/// Tests whether one of `names` has the extension `png`.
pub fn contains_png(names: &Vec<String>) -> (r: bool)
    ensures
        r == any_png(names@),
{
    let mut i: usize = 0;
    while i < names.len()
        invariant
            i <= names@.len(),
            forall|k: int| 0 <= k < i ==> !has_png_ext(#[trigger] names@[k]@),
        decreases names@.len() - i,
    {
        if has_png_extension(names[i].as_str()) {
            return true;
        }
        i = i + 1;
    }
    false
}

/// The errors of the folder at `path` whose reading gave `listing`.
pub fn check_folder(path: String, listing: &Listing) -> (r: Vec<Errors>)
    ensures
        folder_report(r@, path@, *listing),
{
    let mut r: Vec<Errors> = Vec::new();
    match listing {
        Ok(names) => {
            if !contains_png(names) {
                r.push(Errors::Validation(ValidationError::NoPngFilesInSubDir(path)));
            }
        },
        Err(m) => {
            r.push(Errors::from_io_error(m.clone(), path));
        },
    }
    r
}

impl KitsuneYukkuri {
    /// The subfolders that must hold a `png`: the mouth folder, then the eye folder.
    pub fn get_sub_folders(&self) -> (r: Vec<String>)
        ensures
            r@.len() == 2,
            r@[0]@ == joined(self.input_folder@, mouth_label()),
            r@[1]@ == joined(self.input_folder@, eye_label()),
    {
        proof {
            reveal_strlit("口");
            reveal_strlit("目");
        }
        let mut r: Vec<String> = Vec::new();
        r.push(join(&self.input_folder, "口"));
        r.push(join(&self.input_folder, "目"));
        r
    }

    /// The first check: `metadata` tells whether the root is a directory, or
    /// why its metadata could not be read.
    pub fn validate_folder(&self, metadata: &Result<bool, String>) -> (r: Vec<Errors>)
        ensures
            match *metadata {
                Ok(true) => r@.len() == 0,
                Ok(false) => r@ == seq![
                    Errors::Validation(ValidationError::InputPathIsNotDirectory(self.input_folder)),
                ],
                Err(m) => r@ == seq![Errors::Io(m, self.input_folder)],
            },
    {
        let mut r: Vec<Errors> = Vec::new();
        match metadata {
            Ok(true) => {},
            Ok(false) => {
                r.push(
                    Errors::Validation(
                        ValidationError::InputPathIsNotDirectory(self.input_folder.clone()),
                    ),
                );
            },
            Err(m) => {
                r.push(Errors::from_io_error(m.clone(), self.input_folder.clone()));
            },
        }
        assert(r@.len() > 0 ==> r@ =~= seq![r@[0]]);
        r
    }

    /// The second check: `listings` are what reading the mouth folder and the
    /// eye folder gave. The errors of both folders are collected.
    pub fn validate_sub_folder(&self, listings: &Vec<Listing>) -> (r: Vec<Errors>)
        requires
            listings@.len() == 2,
        ensures
            sub_folder_report(r@, self.input_folder@, listings@),
    {
        let folders = self.get_sub_folders();
        let mut r = check_folder(folders[0].clone(), &listings[0]);
        let ghost r0 = r@;
        let mut r1 = check_folder(folders[1].clone(), &listings[1]);
        let ghost r1v = r1@;
        r.append(&mut r1);
        assert(r@.take(r0.len() as int) =~= r0);
        assert(r@.skip(r0.len() as int) =~= r1v);
        r
    }

    /// Runs the first check, then, if it passed, the second.
    pub fn validate(&self, metadata: &Result<bool, String>, listings: &Vec<Listing>) -> (r: Result<
        (),
        MultipleErrors,
    >)
        requires
            *metadata == Ok::<bool, String>(true) ==> listings@.len() == 2,
        ensures
            *metadata != Ok::<bool, String>(true) ==> (r matches Err(e) && (match *metadata {
                Ok(_) => e.errors@ == seq![
                    Errors::Validation(ValidationError::InputPathIsNotDirectory(self.input_folder)),
                ],
                Err(m) => e.errors@ == seq![Errors::Io(m, self.input_folder)],
            })),
            *metadata == Ok::<bool, String>(true) ==> (r is Ok <==> (listings@[0] is Ok
                && listings@[1] is Ok && any_png(listings@[0]->Ok_0@) && any_png(
                listings@[1]->Ok_0@,
            ))),
            *metadata == Ok::<bool, String>(true) ==> (r matches Err(e) ==> sub_folder_report(
                e.errors@,
                self.input_folder@,
                listings@,
            )),
    {
        let mut errors = self.validate_folder(metadata);
        if errors.len() == 0 {
            errors = self.validate_sub_folder(listings);
        }
        into_result(errors)
    }
}

/// When both the mouth folder and the eye folder were read and hold no `png`,
/// one run of the second check reports two errors.
pub proof fn lemma_both_folders_reported(errs: Seq<Errors>, root: Seq<char>, listings: Seq<Listing>)
    requires
        sub_folder_report(errs, root, listings),
        listings[0] matches Ok(names) && !any_png(names@),
        listings[1] matches Ok(names) && !any_png(names@),
    ensures
        errs.len() >= 2,
{
}

} // verus!
