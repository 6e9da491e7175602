use dsl_markup::entry::Entry;
use dsl_markup::entry::Example;
use dsl_markup::entry::Sense;
use dsl_markup::entry::Sound;
use dsl_markup::render::render_entry;

fn sense(glosses: Option<Vec<&str>>, examples: Option<Vec<&str>>) -> Sense {
    Sense {
        glosses: glosses.map(|gs| gs.into_iter().map(String::from).collect()),
        examples: examples.map(|es| {
            es.into_iter().map(|t| Example { text: String::from(t) }).collect()
        }),
    }
}

#[test]
fn full_entry_scenario() {
    let entry = Entry {
        word: String::from("pas"),
        pos: Some(String::from("noun")),
        senses: vec![sense(Some(vec!["dog"]), Some(vec!["Pas tr\u{010D}i."]))],
        sounds: Some(vec![Sound { ipa: Some(String::from("pas")) }]),
    };
    assert_eq!(
        render_entry(&entry),
        "pas\n\t[p]noun[/p]\n\t[t]pas[/t]\n\t1) [trn]dog[/trn]\n\t[ex]Pas tr\u{010D}i.[/ex]\n"
    );
}

#[test]
fn multiline_gloss_scenario() {
    let entry = Entry {
        word: String::from("w"),
        pos: None,
        senses: vec![sense(Some(vec!["a\nb"]), None)],
        sounds: None,
    };
    let out = render_entry(&entry);
    assert_eq!(out, "w\n\t1) a\n\tb\n");
    let lines: Vec<&str> = out.split('\n').collect();
    assert_eq!(lines[1], "\t1) a");
    assert_eq!(lines[2], "\tb");
    assert!(!out.contains("[trn]"));
    assert!(!out.contains("[/trn]"));
}

#[test]
fn bare_entry_renders_headword_only() {
    let entry = Entry {
        word: String::from("kuca"),
        pos: None,
        senses: vec![],
        sounds: None,
    };
    assert_eq!(render_entry(&entry), "kuca\n");
}

#[test]
fn bare_entry_with_empty_sound_list_renders_headword_only() {
    let entry = Entry {
        word: String::from("kuca"),
        pos: None,
        senses: vec![],
        sounds: Some(vec![]),
    };
    assert_eq!(render_entry(&entry), "kuca\n");
}

#[test]
fn sound_without_ipa_contributes_no_line() {
    let entry = Entry {
        word: String::from("w"),
        pos: None,
        senses: vec![],
        sounds: Some(vec![
            Sound { ipa: Some(String::from("a")) },
            Sound { ipa: None },
            Sound { ipa: Some(String::from("b")) },
        ]),
    };
    assert_eq!(render_entry(&entry), "w\n\t[t]a[/t]\n\t[t]b[/t]\n");
}

#[test]
fn examples_repeat_after_every_gloss() {
    let entry = Entry {
        word: String::from("w"),
        pos: None,
        senses: vec![sense(Some(vec!["g1", "g2"]), Some(vec!["e1", "e2"]))],
        sounds: None,
    };
    let out = render_entry(&entry);
    assert_eq!(
        out,
        "w\n\
         \t1) [trn]g1[/trn]\n\t[ex]e1[/ex]\n\t[ex]e2[/ex]\n\
         \t1) [trn]g2[/trn]\n\t[ex]e1[/ex]\n\t[ex]e2[/ex]\n"
    );
    let line_count = out.matches('\n').count();
    assert_eq!(line_count, 1 + 2 * (1 + 2));
}

#[test]
fn glossless_sense_is_silent_but_consumes_its_number() {
    let entry = Entry {
        word: String::from("w"),
        pos: None,
        senses: vec![
            sense(None, Some(vec!["hidden example"])),
            sense(Some(vec!["g"]), None),
        ],
        sounds: None,
    };
    assert_eq!(render_entry(&entry), "w\n\t2) [trn]g[/trn]\n");
}

#[test]
fn present_but_empty_gloss_list_is_silent() {
    let entry = Entry {
        word: String::from("w"),
        pos: None,
        senses: vec![sense(Some(vec![]), Some(vec!["e"])), sense(Some(vec!["g"]), None)],
        sounds: None,
    };
    assert_eq!(render_entry(&entry), "w\n\t2) [trn]g[/trn]\n");
}

#[test]
fn sense_numbering_follows_position() {
    let entry = Entry {
        word: String::from("w"),
        pos: None,
        senses: vec![
            sense(Some(vec!["a"]), None),
            sense(Some(vec!["b"]), None),
            sense(Some(vec!["c"]), None),
        ],
        sounds: None,
    };
    assert_eq!(
        render_entry(&entry),
        "w\n\t1) [trn]a[/trn]\n\t2) [trn]b[/trn]\n\t3) [trn]c[/trn]\n"
    );
}

#[test]
fn rendering_twice_is_byte_identical() {
    let entry = Entry {
        word: String::from("pas"),
        pos: Some(String::from("noun")),
        senses: vec![sense(Some(vec!["dog", "hound\npre"]), Some(vec!["e"]))],
        sounds: Some(vec![Sound { ipa: None }, Sound { ipa: Some(String::from("pas")) }]),
    };
    let first = render_entry(&entry);
    let second = render_entry(&entry);
    assert_eq!(first.as_bytes(), second.as_bytes());
}
