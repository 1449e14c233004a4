use rinex::fmt_comment;
use rinex::fmt_rinex;
use rinex::header::Header;
use rinex::is_rinex_comment;
use rinex::observable::Observable;
use rinex::observation::record::Record;
use rinex::Rinex;

#[test]
fn test_macros() {
    assert_eq!(Observable::from_str("L1C").unwrap(), Observable::Phase("L1C".to_string()));
}

#[test]
fn fmt_comments_singleline() {
    for desc in ["test", "just a basic comment", "just another lengthy comment blahblabblah"] {
        let comment = fmt_comment(desc);
        assert!(comment.len() >= 60, "comments should be at least 60 byte long");
        assert_eq!(comment.find("COMMENT"), Some(60), "comment marker should located @ 60");
        assert!(is_rinex_comment(&comment), "should be valid comment");
    }
}

#[test]
fn fmt_wrapped_comments() {
    for desc in ["just trying to form a very lengthy comment that will overflow since it does not fit in a single line",
        "just trying to form a very very lengthy comment that will overflow since it does fit on three very meaningful lines. Imazdmazdpoakzdpoakzpdokpokddddddddddddddddddaaaaaaaaaaaaaaaaaaaaaaa"] {
        let nb_lines = (desc.len() + 59) / 60;
        let comments = fmt_comment(desc);
        assert_eq!(comments.lines().count(), nb_lines);
        for line in comments.lines() {
            assert!(line.len() >= 60, "comment line should be at least 60 byte long");
            assert_eq!(line.find("COMMENT"), Some(60), "comment marker should located @ 60");
            assert!(is_rinex_comment(line), "should be valid comment");
        }
    }
}

#[test]
fn fmt_observables_v3() {
    for (desc, expected) in [
("R    9 C1C L1C S1C C2C C2P L2C L2P S2C S2P",
"R    9 C1C L1C S1C C2C C2P L2C L2P S2C S2P                  SYS / # / OBS TYPES"),
("G   18 C1C L1C S1C C2P C2W C2S C2L C2X L2P L2W L2S L2L L2X         S2P S2W S2S S2L S2X",
"G   18 C1C L1C S1C C2P C2W C2S C2L C2X L2P L2W L2S L2L L2X  SYS / # / OBS TYPES
       S2P S2W S2S S2L S2X                                  SYS / # / OBS TYPES"),
    ] {
        assert_eq!(fmt_rinex(desc, "SYS / # / OBS TYPES"), expected);
    }
}

#[test]
fn comment_lines_need_the_label_past_column_60() {
    assert!(!is_rinex_comment("COMMENT"));
    assert!(!is_rinex_comment(&format!("{:60}", "COMMENT")));
    assert!(is_rinex_comment(&format!("{:60}COMMENT   ", "x")));
    assert!(!is_rinex_comment(&format!("{:60}COMMENTS", "x")));
    assert!(!is_rinex_comment(&format!("{:60}      ", "x")));
    let sixty = "0123456789".repeat(6);
    assert_eq!(fmt_comment(&sixty), format!("{}COMMENT", sixty));
    assert_eq!(fmt_comment(""), format!("{:60}COMMENT", ""));
}

#[test]
fn merged_files_are_told_by_a_header_comment() {
    let plain = Rinex::new(Header::default().with_comment("nothing special"), Record::new());
    assert!(!plain.is_merged());
    let merged = Rinex::new(
        Header::default().with_comment("first").with_comment("rnx FILE MERGE 2022"),
        Record::new(),
    );
    assert!(merged.is_merged());
    assert!(!Rinex::new(Header::default().with_comment("FILE  MERGE"), Record::new()).is_merged());
}
