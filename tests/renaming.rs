use cosplay_renamer::args::{Args, LogLevel, RenameOption};
use cosplay_renamer::error::{into_result, Errors, MultipleErrors, ValidationError};
use cosplay_renamer::filename::parse_file_name;
use cosplay_renamer::groups::{build_groups, Record};
use cosplay_renamer::naming::{canonical_name, decimal_string, plan_group, Rename};
use cosplay_renamer::paths::join;
use cosplay_renamer::pipeline::{Pipeline, Stage};
use cosplay_renamer::renamers::kitsune_yukkuri::{collect_records, KitsuneYukkuri};
use cosplay_renamer::renamers::RenamerFactory;
use cosplay_renamer::validators::kitsune_yukkuri::{
    has_png_extension, KitsuneYukkuri as Validator, Listing,
};
use cosplay_renamer::validators::ValidatorFactory;

fn names(xs: &[&str]) -> Vec<String> {
    xs.iter().map(|s| s.to_string()).collect()
}

fn pairs(r: Vec<Rename>) -> Vec<(String, String)> {
    let mut v: Vec<(String, String)> = r.into_iter().map(|x| (x.from, x.to)).collect();
    v.sort();
    v
}

fn expected(xs: &[(&str, &str)]) -> Vec<(String, String)> {
    let mut v: Vec<(String, String)> =
        xs.iter().map(|(a, b)| (a.to_string(), b.to_string())).collect();
    v.sort();
    v
}

fn renamer() -> KitsuneYukkuri {
    RenamerFactory::create_renamer(&RenameOption::KitsuneYukkuri, "root".to_string())
}

#[test]
fn parse_letter_and_suffix() {
    let f = parse_file_name("01b-12.png").unwrap();
    assert_eq!(f.number, "01");
    assert_eq!(f.letter, Some('b'));
    assert_eq!(f.suffix, "-12");
}

#[test]
fn parse_number_only() {
    let f = parse_file_name("00.png").unwrap();
    assert_eq!(f.number, "00");
    assert_eq!(f.letter, None);
    assert_eq!(f.suffix, "");
}

#[test]
fn parse_letter_only() {
    let f = parse_file_name("123z.png").unwrap();
    assert_eq!(f.number, "123");
    assert_eq!(f.letter, Some('z'));
    assert_eq!(f.suffix, "");
}

#[test]
fn parse_rejects_outside_grammar() {
    for s in [
        "", ".png", "a.png", "00A.png", "00ab.png", "00-.png", "00.jpg", "00a.PNG", "00a.png.bak",
        "00-1a.png", "x00a.png", "00a-1x.png", "00a", "0-1-2.png",
    ] {
        assert!(parse_file_name(s).is_none(), "{}", s);
    }
}

#[test]
fn parse_suffix_without_letter() {
    let f = parse_file_name("7-3.png").unwrap();
    assert_eq!(f.number, "7");
    assert_eq!(f.letter, None);
    assert_eq!(f.suffix, "-3");
}

#[test]
fn records_keep_grammar_names_in_order() {
    let recs = collect_records(&names(&["b.txt", "01b.png", "x.png", "00a.png"]));
    let sources: Vec<&str> = recs.iter().map(|r| r.source.as_str()).collect();
    assert_eq!(sources, vec!["01b.png", "00a.png"]);
}

#[test]
fn grouping_by_number_sorted_by_letter() {
    let recs: Vec<Record> = collect_records(&names(&[
        "01c.png", "00b.png", "01a.png", "00.png", "01b-2.png", "02a.png",
    ]));
    let gs = build_groups(&recs);
    assert_eq!(gs.len(), 3);
    let mut total = 0;
    for g in &gs {
        let letters: Vec<Option<char>> = g.members.iter().map(|m| m.letter).collect();
        total += letters.len();
        match g.number.as_str() {
            "00" => assert_eq!(letters, vec![None, Some('b')]),
            "01" => {
                assert_eq!(letters, vec![Some('a'), Some('b'), Some('c')]);
                assert_eq!(g.members[1].suffix, "-2");
                assert_eq!(g.members[1].source, "01b-2.png");
            }
            "02" => assert_eq!(letters, vec![Some('a')]),
            other => panic!("unexpected group {}", other),
        }
    }
    assert_eq!(total, recs.len());
}

#[test]
fn decimal_spelling() {
    assert_eq!(decimal_string(0), "0");
    assert_eq!(decimal_string(7), "7");
    assert_eq!(decimal_string(10), "10");
    assert_eq!(decimal_string(1203), "1203");
}

#[test]
fn canonical_names() {
    assert_eq!(canonical_name(&"05".to_string(), None), "05.png");
    assert_eq!(canonical_name(&"05".to_string(), Some(12)), "05.12.png");
}

#[test]
fn mouth_forward_numbering() {
    let r = renamer().rename_mouse_folder(&names(&["00a.png", "00b.png", "00c.png"]));
    assert_eq!(
        pairs(r),
        expected(&[("00a.png", "00.0.png"), ("00b.png", "00.1.png"), ("00c.png", "00.png")])
    );
}

#[test]
fn eye_reversed_numbering() {
    let r = renamer().rename_eye_folder(&names(&["01a.png", "01b.png", "01c.png"]));
    assert_eq!(
        pairs(r),
        expected(&[("01a.png", "01.2.png"), ("01b.png", "01.1.png"), ("01c.png", "01.0.png")])
    );
}

#[test]
fn eye_empty_letter_unchanged() {
    let r = renamer().rename_eye_folder(&names(&["02.png"]));
    assert_eq!(pairs(r), expected(&[("02.png", "02.png")]));
}

#[test]
fn face_folder_relabelled() {
    let r = renamer().rename_face_folder();
    assert_eq!(r.from, "root/顔");
    assert_eq!(r.to, "root/顔色");
}

#[test]
fn validation_root_not_directory() {
    let v = ValidatorFactory::create_validator(&RenameOption::KitsuneYukkuri, "file.txt".to_string());
    let r = v.validate(&Ok(false), &Vec::new());
    let errs = r.unwrap_err().into_vec();
    assert_eq!(errs.len(), 1);
    assert!(matches!(
        &errs[0],
        Errors::Validation(ValidationError::InputPathIsNotDirectory(p)) if p == "file.txt"
    ));
    let mut p = Pipeline::new();
    p.advance(v.validate_folder(&Ok(false)));
    assert_eq!(p.stage, Stage::Failed);
    assert!(p.finish().is_err());
}

#[test]
fn mouth_mixed_group() {
    let r = renamer().rename_mouse_folder(&names(&["03a.png", "03b.png", "03.png"]));
    assert_eq!(
        pairs(r),
        expected(&[("03.png", "03.0.png"), ("03a.png", "03.1.png"), ("03b.png", "03.png")])
    );
}

#[test]
fn mouth_single_letter_takes_bare_name() {
    let r = renamer().rename_mouse_folder(&names(&["04a.png"]));
    assert_eq!(pairs(r), expected(&[("04a.png", "04.png")]));
}

#[test]
fn eye_single_letter_pinned_to_zero() {
    let r = renamer().rename_eye_folder(&names(&["04a.png"]));
    assert_eq!(pairs(r), expected(&[("04a.png", "04.0.png")]));
}

#[test]
fn eye_mixed_group_keeps_bare_name() {
    let r = renamer().rename_eye_folder(&names(&["05.png", "05a.png", "05b.png"]));
    assert_eq!(
        pairs(r),
        expected(&[("05.png", "05.png"), ("05a.png", "05.1.png"), ("05b.png", "05.0.png")])
    );
}

#[test]
fn eye_descent_over_four_frames() {
    let recs = collect_records(&names(&["06d.png", "06b.png", "06a.png", "06c.png"]));
    let gs = build_groups(&recs);
    assert_eq!(gs.len(), 1);
    let r: Vec<String> = plan_group(&gs[0], true).into_iter().map(|x| x.to).collect();
    assert_eq!(r, vec!["06.3.png", "06.2.png", "06.1.png", "06.0.png"]);
    let m: Vec<String> = plan_group(&gs[0], false).into_iter().map(|x| x.to).collect();
    assert_eq!(m, vec!["06.0.png", "06.1.png", "06.2.png", "06.png"]);
}

#[test]
fn several_groups_and_ignored_names() {
    let r = renamer().rename_mouse_folder(&names(&[
        "10b.png", "readme.txt", "10a.png", "11a-1.png", "11b-2.png", "Thumbs.db",
    ]));
    assert_eq!(
        pairs(r),
        expected(&[
            ("10a.png", "10.0.png"),
            ("10b.png", "10.png"),
            ("11a-1.png", "11.0.png"),
            ("11b-2.png", "11.png"),
        ])
    );
}

#[test]
fn canonical_input_is_left_alone() {
    let input = names(&["00.png", "01.png", "02.png"]);
    let same = expected(&[("00.png", "00.png"), ("01.png", "01.png"), ("02.png", "02.png")]);
    assert_eq!(pairs(renamer().rename_mouse_folder(&input)), same);
    assert_eq!(pairs(renamer().rename_eye_folder(&input)), same);
}

#[test]
fn empty_folder_plans_nothing() {
    assert!(renamer().rename_mouse_folder(&Vec::new()).is_empty());
    assert!(renamer().rename_eye_folder(&Vec::new()).is_empty());
}

#[test]
fn validation_reports_both_folders() {
    let v = ValidatorFactory::create_validator(&RenameOption::KitsuneYukkuri, "root".to_string());
    let listings: Vec<Listing> = vec![Ok(names(&["notes.txt"])), Ok(Vec::new())];
    let errs = v.validate(&Ok(true), &listings).unwrap_err().into_vec();
    assert_eq!(errs.len(), 2);
    assert!(matches!(
        &errs[0],
        Errors::Validation(ValidationError::NoPngFilesInSubDir(p)) if p == "root/口"
    ));
    assert!(matches!(
        &errs[1],
        Errors::Validation(ValidationError::NoPngFilesInSubDir(p)) if p == "root/目"
    ));
}

#[test]
fn validation_io_error_and_success() {
    let v = Validator { input_folder: "root/".to_string() };
    let listings: Vec<Listing> = vec![Err("denied".to_string()), Ok(names(&["00a.png"]))];
    let errs = v.validate_sub_folder(&listings);
    assert_eq!(errs.len(), 1);
    assert!(matches!(&errs[0], Errors::Io(m, p) if m == "denied" && p == "root/口"));
    let ok: Vec<Listing> = vec![Ok(names(&["a.png"])), Ok(names(&["x.txt", "b.png"]))];
    assert!(v.validate(&Ok(true), &ok).is_ok());
    let errs = v.validate(&Err("missing".to_string()), &Vec::new()).unwrap_err().into_vec();
    assert!(matches!(&errs[0], Errors::Io(m, p) if m == "missing" && p == "root/"));
}

#[test]
fn png_extension() {
    assert!(has_png_extension("a.png"));
    assert!(has_png_extension("..png"));
    assert!(!has_png_extension(".png"));
    assert!(!has_png_extension("a.PNG"));
    assert!(!has_png_extension("apng"));
}

#[test]
fn join_paths() {
    assert_eq!(join(&"".to_string(), "口"), "口");
    assert_eq!(join(&"a/".to_string(), "口"), "a/口");
    assert_eq!(join(&"a".to_string(), "目"), "a/目");
}

#[test]
fn pipeline_runs_every_rewrite_step() {
    let mut p = Pipeline::new();
    p.advance(Vec::new());
    assert_eq!(p.stage, Stage::RewritingMouth);
    p.advance(vec![Errors::from_io_error("busy".to_string(), "root/口".to_string())]);
    assert_eq!(p.stage, Stage::RewritingEye);
    p.advance(Vec::new());
    assert_eq!(p.stage, Stage::Relabelling);
    p.advance(Vec::new());
    assert_eq!(p.stage, Stage::Failed);
    let errs = p.finish().unwrap_err().into_vec();
    assert_eq!(errs.len(), 1);
}

#[test]
fn pipeline_succeeds_without_errors() {
    let mut p = Pipeline::new();
    for _ in 0..4 {
        p.advance(Vec::new());
    }
    assert_eq!(p.stage, Stage::Done);
    assert!(p.finish().is_ok());
}

#[test]
fn args_and_results() {
    let a = Args::new("in".to_string(), RenameOption::KitsuneYukkuri, LogLevel::Debug);
    assert_eq!(a.input_folder, "in");
    assert_eq!(a.log_level, LogLevel::Debug);
    assert!(into_result(Vec::new()).is_ok());
    let m = MultipleErrors::new(vec![Errors::from_io_error("e".to_string(), "p".to_string())]);
    assert_eq!(m.into_vec().len(), 1);
}
