use dsl_markup::markup::build_ex;
use dsl_markup::markup::build_headword;
use dsl_markup::markup::build_labels;
use dsl_markup::markup::build_preable;
use dsl_markup::markup::build_transcription;
use dsl_markup::markup::build_trn;
use dsl_markup::markup::tab_tag;

#[test]
fn tab_tag_wraps_content_in_role_markers() {
    let line = String::from("noun");
    assert_eq!(tab_tag("p", &line), "\t[p]noun[/p]\n");
}

#[test]
fn tab_tag_does_not_escape_content() {
    let line = String::from("a [b] c");
    assert_eq!(tab_tag("ex", &line), "\t[ex]a [b] c[/ex]\n");
}

#[test]
fn headword_line_is_bare() {
    assert_eq!(build_headword(&String::from("pas")), "pas\n");
}

#[test]
fn label_line_uses_role_p() {
    assert_eq!(build_labels(&String::from("noun")), "\t[p]noun[/p]\n");
}

#[test]
fn transcription_line_uses_role_t() {
    assert_eq!(build_transcription(&String::from("pas")), "\t[t]pas[/t]\n");
}

#[test]
fn example_line_uses_role_ex() {
    assert_eq!(build_ex(&String::from("Pas laje.")), "\t[ex]Pas laje.[/ex]\n");
}

#[test]
fn numbered_single_line_gloss() {
    assert_eq!(build_trn(Some(0), &String::from("dog")), "\t1) [trn]dog[/trn]\n");
}

#[test]
fn unnumbered_single_line_gloss() {
    assert_eq!(build_trn(None, &String::from("dog")), "\t[trn]dog[/trn]\n");
}

#[test]
fn display_number_is_index_plus_one_in_decimal() {
    assert_eq!(build_trn(Some(8), &String::from("g")), "\t9) [trn]g[/trn]\n");
    assert_eq!(build_trn(Some(9), &String::from("g")), "\t10) [trn]g[/trn]\n");
    assert_eq!(build_trn(Some(119), &String::from("g")), "\t120) [trn]g[/trn]\n");
}

#[test]
fn multiline_gloss_numbered_reindents_without_markers() {
    let out = build_trn(Some(1), &String::from("a\nb\nc"));
    assert_eq!(out, "\t2) a\n\tb\n\tc\n");
    assert!(!out.contains("[trn]"));
    assert!(!out.contains("[/trn]"));
}

#[test]
fn multiline_gloss_unnumbered_reindents_without_markers() {
    let out = build_trn(None, &String::from("x\ny"));
    assert_eq!(out, "\tx\n\ty\n");
    assert!(!out.contains("[trn]"));
}

#[test]
fn preamble_has_bom_and_three_directives_and_blank_line() {
    let out = build_preable("Wiktionary (Hbs-Eng)", "SerbianCyrillic", "English");
    assert_eq!(
        out,
        "\u{FEFF}#NAME \"Wiktionary (Hbs-Eng)\"\n#INDEX_LANGUAGE \"SerbianCyrillic\"\n#CONTENTS_LANGUAGE \"English\"\n\n"
    );
}
