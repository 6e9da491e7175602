//! The general properties of the renderer, stated and proved over the spec
//! functions that the executable functions' contracts use.

use crate::entry::Entry;
use crate::entry::Example;
use crate::entry::Sense;
use crate::entry::Sound;
use crate::markup::spec_headword;
use crate::markup::spec_tab_tag;
use crate::markup::spec_trn;
use crate::render::spec_example_block;
use crate::render::spec_example_line;
use crate::render::spec_examples;
use crate::render::spec_gloss_block;
use crate::render::spec_glosses;
use crate::render::spec_render_entry;
use crate::render::spec_sense;
use crate::render::spec_senses;
use crate::render::spec_sound_line;
use crate::render::spec_sounds;
use crate::text::digit_seq;
use crate::text::spec_number;
use crate::text::spec_replace_indent;
use vstd::prelude::*;

verus! {

/// An entry with no part-of-speech, no sounds and no senses renders to
/// exactly its headword line and nothing else.
pub proof fn lemma_bare_entry(e: Entry)
    requires
        e.pos is None,
        match e.sounds {
            Option::Some(ss) => ss@.len() == 0,
            Option::None => true,
        },
        e.senses@.len() == 0,
    ensures
        spec_render_entry(e) == spec_headword(e.word@),
{
    assert(spec_senses(e.senses@) == Seq::<char>::empty());
    match e.sounds {
        Option::Some(ss) => {
            assert(spec_sounds(ss@) == Seq::<char>::empty());
        },
        Option::None => {},
    }
    assert(spec_render_entry(e) =~= spec_headword(e.word@));
}

/// A gloss without embedded line breaks, numbered by the 0-based sense index
/// `k`, becomes the single line `\t<k+1>) [trn]<gloss>[/trn]\n`, where
/// `<k+1>` is the decimal numeral of the 1-based display number.
pub proof fn lemma_single_line_gloss(k: int, gloss: Seq<char>)
    requires
        !gloss.contains('\n'),
    ensures
        spec_trn(Option::Some(k), gloss) == "\t"@ + spec_number((k + 1) as nat) + ") [trn]"@
            + gloss + "[/trn]\n"@,
{
}

/// A sound without a transcription contributes nothing: dropping it from the
/// sound sequence leaves the rendered sound lines unchanged.
pub proof fn lemma_sound_without_ipa_silent(sounds: Seq<Sound>, i: int)
    requires
        0 <= i < sounds.len(),
        sounds[i].ipa is None,
    ensures
        spec_sounds(sounds) == spec_sounds(sounds.remove(i)),
    decreases sounds.len(),
{
    if i == sounds.len() - 1 {
        assert(sounds.remove(i) =~= sounds.drop_last());
        assert(spec_sound_line(sounds.last()) == Seq::<char>::empty());
        assert(spec_sounds(sounds) =~= spec_sounds(sounds.drop_last()));
    } else {
        lemma_sound_without_ipa_silent(sounds.drop_last(), i);
        assert(sounds.remove(i).drop_last() =~= sounds.drop_last().remove(i));
        assert(sounds.remove(i).last() == sounds.last());
    }
}

/// Whether a character is a decimal digit.
spec fn is_digit_char(c: char) -> bool {
    c == '0' || c == '1' || c == '2' || c == '3' || c == '4' || c == '5' || c == '6' || c == '7'
        || c == '8' || c == '9'
}

/// Every character of a decimal numeral is a digit.
proof fn lemma_number_digit_chars(n: nat)
    ensures
        forall|i: int|
            0 <= i < spec_number(n).len() ==> is_digit_char(#[trigger] spec_number(n)[i]),
    decreases n,
{
    reveal_strlit("0");
    reveal_strlit("1");
    reveal_strlit("2");
    reveal_strlit("3");
    reveal_strlit("4");
    reveal_strlit("5");
    reveal_strlit("6");
    reveal_strlit("7");
    reveal_strlit("8");
    reveal_strlit("9");
    if n >= 10 {
        lemma_number_digit_chars(n / 10);
        let w = spec_number(n / 10);
        let d = digit_seq(n % 10);
        assert forall|i: int| 0 <= i < spec_number(n).len() implies is_digit_char(
            #[trigger] spec_number(n)[i],
        ) by {
            if i < w.len() {
                assert(spec_number(n)[i] == w[i]);
            } else {
                assert(spec_number(n)[i] == d[i - w.len()]);
                assert(d.len() == 1 && i == w.len());
                assert(is_digit_char(d[0]));
            }
        }
    } else {
        assert(spec_number(n) == digit_seq(n));
        assert(digit_seq(n).len() == 1 && is_digit_char(digit_seq(n)[0]));
    }
}

/// A tab-free suffix of the re-indented text is a suffix of the original
/// text: re-indentation only ever inserts tabs.
proof fn lemma_replace_suffix(s: Seq<char>, m: int)
    requires
        0 <= m <= spec_replace_indent(s).len(),
        forall|i: int|
            spec_replace_indent(s).len() - m <= i < spec_replace_indent(s).len()
                ==> (#[trigger] spec_replace_indent(s)[i]) != '\t',
    ensures
        m <= s.len(),
        spec_replace_indent(s).subrange(
            spec_replace_indent(s).len() - m,
            spec_replace_indent(s).len() as int,
        ) == s.subrange(s.len() - m, s.len() as int),
    decreases s.len(),
{
    let r = spec_replace_indent(s);
    if m == 0 {
        assert(r.subrange(r.len() as int, r.len() as int) =~= s.subrange(
            s.len() as int,
            s.len() as int,
        ));
    } else {
        assert(s.len() > 0);
        let sp = s.drop_last();
        let rp = spec_replace_indent(sp);
        if s.last() != '\n' {
            assert(r =~= rp + seq![s.last()]);
            assert forall|i: int| rp.len() - (m - 1) <= i < rp.len() implies (#[trigger] rp[i])
                != '\t' by {
                assert(rp[i] == r[i]);
            }
            lemma_replace_suffix(sp, m - 1);
            assert forall|t: int| 0 <= t < m implies #[trigger] r.subrange(
                r.len() - m,
                r.len() as int,
            )[t] == s.subrange(s.len() - m, s.len() as int)[t] by {
                if t < m - 1 {
                    assert(r[r.len() - m + t] == rp[rp.len() - (m - 1) + t]);
                    assert(rp.subrange(rp.len() - (m - 1), rp.len() as int)[t] == sp.subrange(
                        sp.len() - (m - 1),
                        sp.len() as int,
                    )[t]);
                    assert(s[s.len() - m + t] == sp[sp.len() - (m - 1) + t]);
                } else {
                    assert(r[r.len() - 1] == s.last());
                }
            }
            assert(r.subrange(r.len() - m, r.len() as int) =~= s.subrange(
                s.len() - m,
                s.len() as int,
            ));
        } else {
            assert(r =~= rp + seq!['\n', '\t']);
            assert(r[r.len() - 1] == '\t');
            assert(false);
        }
    }
}

/// An occurrence of a tab-free, newline-free text in the re-indented form
/// comes from an occurrence in the original text.
proof fn lemma_replace_occurrence(s: Seq<char>, needle: Seq<char>, i: int)
    requires
        needle.len() > 0,
        forall|t: int| 0 <= t < needle.len() ==> (#[trigger] needle[t]) != '\t' && needle[t] != '\n',
        0 <= i,
        i + needle.len() <= spec_replace_indent(s).len(),
        spec_replace_indent(s).subrange(i, i + needle.len()) == needle,
    ensures
        exists|j: int|
            0 <= j && j + needle.len() <= s.len() && #[trigger] s.subrange(j, j + needle.len())
                == needle,
    decreases s.len(),
{
    let r = spec_replace_indent(s);
    let ln = needle.len() as int;
    assert(s.len() > 0);
    let sp = s.drop_last();
    let rp = spec_replace_indent(sp);
    if s.last() != '\n' {
        assert(r =~= rp + seq![s.last()]);
        if i + ln <= rp.len() {
            assert(rp.subrange(i, i + ln) =~= r.subrange(i, i + ln));
            lemma_replace_occurrence(sp, needle, i);
            let j = choose|j: int|
                0 <= j && j + ln <= sp.len() && #[trigger] sp.subrange(j, j + ln) == needle;
            assert(s.subrange(j, j + ln) =~= sp.subrange(j, j + ln));
            assert(s.subrange(j, j + ln) == needle);
        } else {
            assert(i + ln == r.len());
            assert forall|t: int| r.len() - ln <= t < r.len() implies (#[trigger] r[t])
                != '\t' by {
                assert(r[t] == r.subrange(i, i + ln)[t - i]);
            }
            lemma_replace_suffix(s, ln);
            assert(r.subrange(r.len() - ln, r.len() as int) == needle);
            let j0 = s.len() - ln;
            assert(s.subrange(j0, j0 + ln) == s.subrange(s.len() - ln, s.len() as int));
            assert(0 <= j0 && j0 + ln <= s.len() && s.subrange(j0, j0 + ln) == needle);
        }
    } else {
        assert(r =~= rp + seq!['\n', '\t']);
        if i + ln <= rp.len() {
            assert(rp.subrange(i, i + ln) =~= r.subrange(i, i + ln));
            lemma_replace_occurrence(sp, needle, i);
            let j = choose|j: int|
                0 <= j && j + ln <= sp.len() && #[trigger] sp.subrange(j, j + ln) == needle;
            assert(s.subrange(j, j + ln) =~= sp.subrange(j, j + ln));
            assert(s.subrange(j, j + ln) == needle);
        } else if i + ln == rp.len() + 1 {
            assert(needle[ln - 1] == r.subrange(i, i + ln)[ln - 1]);
            assert(r[rp.len() as int] == '\n');
            assert(false);
        } else {
            assert(needle[ln - 1] == r.subrange(i, i + ln)[ln - 1]);
            assert(r[rp.len() as int + 1] == '\t');
            assert(false);
        }
    }
}

/// In the re-indented text every line break is immediately followed by a
/// tab; in particular the re-indented text never ends with a line break.
proof fn lemma_replace_indent_newline_tab(s: Seq<char>)
    ensures
        forall|i: int|
            0 <= i < spec_replace_indent(s).len() && (#[trigger] spec_replace_indent(s)[i]) == '\n'
                ==> i + 1 < spec_replace_indent(s).len() && spec_replace_indent(s)[i + 1] == '\t',
    decreases s.len(),
{
    if s.len() > 0 {
        lemma_replace_indent_newline_tab(s.drop_last());
        let r = spec_replace_indent(s);
        let rp = spec_replace_indent(s.drop_last());
        assert forall|i: int| 0 <= i < r.len() && (#[trigger] r[i]) == '\n' implies i + 1 < r.len()
            && r[i + 1] == '\t' by {
            if i < rp.len() {
                assert(rp[i] == '\n');
                assert(rp[i + 1] == '\t');
                assert(r[i + 1] == rp[i + 1]);
            }
        }
    }
}

/// The number of occurrences of a character in a text.
pub open spec fn count_char(s: Seq<char>, c: char) -> nat
    decreases s.len(),
{
    if s.len() == 0 {
        0
    } else {
        count_char(s.drop_last(), c) + (if s.last() == c {
            1nat
        } else {
            0nat
        })
    }
}

/// Occurrence counts add up over concatenation.
proof fn lemma_count_char_concat(a: Seq<char>, b: Seq<char>, c: char)
    ensures
        count_char(a + b, c) == count_char(a, c) + count_char(b, c),
    decreases b.len(),
{
    if b.len() == 0 {
        assert(a + b =~= a);
    } else {
        lemma_count_char_concat(a, b.drop_last(), c);
        assert((a + b).drop_last() =~= a + b.drop_last());
        assert((a + b).last() == b.last());
    }
}

/// A character that does not occur in a text is counted zero times.
proof fn lemma_count_char_absent(s: Seq<char>, c: char)
    requires
        !s.contains(c),
    ensures
        count_char(s, c) == 0,
    decreases s.len(),
{
    if s.len() > 0 {
        assert forall|j: int| 0 <= j < s.drop_last().len() implies s.drop_last()[j] != c by {
            assert(s[j] == s.drop_last()[j]);
        }
        lemma_count_char_absent(s.drop_last(), c);
        assert(s[s.len() - 1] != c);
    }
}

/// A text whose only occurrence of `c` is its last character counts it once.
proof fn lemma_count_char_one(s: Seq<char>, c: char)
    requires
        s.len() >= 1,
        s.last() == c,
        !s.drop_last().contains(c),
    ensures
        count_char(s, c) == 1,
{
    lemma_count_char_absent(s.drop_last(), c);
}

/// The tab-and-number prefix of a translation line: a tab alone when no
/// number is given, else a tab, the 1-based display numeral and `") "`.
spec fn trn_prefix(num: Option<int>) -> Seq<char> {
    match num {
        Option::Some(k) => "\t"@ + spec_number((k + 1) as nat) + ") "@,
        Option::None => "\t"@,
    }
}

proof fn lemma_trn_prefix_chars(num: Option<int>)
    ensures
        forall|i: int|
            0 <= i < trn_prefix(num).len() ==> (#[trigger] trn_prefix(num)[i]) != '\n'
                && trn_prefix(num)[i] != '[',
{
    reveal_strlit("\t");
    reveal_strlit(") ");
    match num {
        Option::Some(k) => {
            lemma_number_digit_chars((k + 1) as nat);
            let t = "\t"@;
            let w = spec_number((k + 1) as nat);
            let c = ") "@;
            let p = trn_prefix(num);
            assert forall|i: int| 0 <= i < p.len() implies (#[trigger] p[i]) != '\n' && p[i]
                != '[' by {
                if i < 1 {
                    assert(p[i] == t[0]);
                } else if i < 1 + w.len() {
                    assert(p[i] == w[i - 1]);
                    assert(is_digit_char(w[i - 1]));
                } else {
                    assert(p[i] == c[i - 1 - w.len()]);
                }
            }
        },
        Option::None => {},
    }
}

/// The translation block of a gloss with embedded line breaks ends with the
/// line terminator, and within it every line break is immediately followed
/// by a tab: each continuation line sits one tab deeper.
pub proof fn lemma_multiline_indent(num: Option<int>, gloss: Seq<char>)
    requires
        gloss.contains('\n'),
    ensures
        spec_trn(num, gloss).len() > 0,
        spec_trn(num, gloss).last() == '\n',
        forall|i: int|
            0 <= i < spec_trn(num, gloss).len() - 1 && (#[trigger] spec_trn(num, gloss)[i]) == '\n'
                ==> spec_trn(num, gloss)[i + 1] == '\t',
{
    reveal_strlit("\n");
    lemma_trn_prefix_chars(num);
    lemma_replace_indent_newline_tab(gloss);
    let p = trn_prefix(num);
    let r = spec_replace_indent(gloss);
    let b = spec_trn(num, gloss);
    assert(b =~= p + r + "\n"@);
    assert(b.len() == p.len() + r.len() + 1);
    assert(b.last() == '\n');
    assert forall|i: int| 0 <= i < b.len() - 1 && (#[trigger] b[i]) == '\n' implies b[i + 1]
        == '\t' by {
        if i < p.len() {
            assert(b[i] == p[i]);
        } else {
            assert(b[i] == r[i - p.len()]);
            assert(r[i - p.len() + 1] == '\t');
            assert(b[i + 1] == r[i - p.len() + 1]);
        }
    }
}

proof fn lemma_block_marker_free(num: Option<int>, gloss: Seq<char>, needle: Seq<char>)
    requires
        needle.len() > 0,
        needle[0] == '[',
        forall|t: int| 0 <= t < needle.len() ==> (#[trigger] needle[t]) != '\t' && needle[t] != '\n',
        gloss.contains('\n'),
        forall|j: int|
            0 <= j && j + needle.len() <= gloss.len() ==> #[trigger] gloss.subrange(
                j,
                j + needle.len(),
            ) != needle,
    ensures
        forall|i: int|
            0 <= i && i + needle.len() <= spec_trn(num, gloss).len() ==> #[trigger] spec_trn(
                num,
                gloss,
            ).subrange(i, i + needle.len()) != needle,
{
    reveal_strlit("\n");
    lemma_trn_prefix_chars(num);
    let p = trn_prefix(num);
    let r = spec_replace_indent(gloss);
    let b = spec_trn(num, gloss);
    let ln = needle.len() as int;
    assert(b =~= p + r + "\n"@);
    assert forall|i: int| 0 <= i && i + ln <= b.len() implies #[trigger] b.subrange(i, i + ln)
        != needle by {
        if b.subrange(i, i + ln) == needle {
            assert(b[i] == b.subrange(i, i + ln)[0]);
            assert(b[i] == '[');
            assert(i >= p.len());
            if i + ln > p.len() + r.len() {
                assert(b[i + ln - 1] == b.subrange(i, i + ln)[ln - 1]);
                assert(b[i + ln - 1] == '\n');
                assert(needle[ln - 1] == '\n');
                assert(false);
            }
            assert(r.subrange(i - p.len(), i - p.len() + ln) =~= b.subrange(i, i + ln));
            lemma_replace_occurrence(gloss, needle, i - p.len());
            let j = choose|j: int|
                0 <= j && j + ln <= gloss.len() && #[trigger] gloss.subrange(j, j + ln) == needle;
            assert(false);
        }
    }
}

/// The translation block of a gloss with embedded line breaks carries no
/// `trn` markers: unless the gloss itself already holds the marker text,
/// neither `[trn]` nor `[/trn]` occurs anywhere in the block.
pub proof fn lemma_multiline_no_markers(num: Option<int>, gloss: Seq<char>)
    requires
        gloss.contains('\n'),
        forall|j: int|
            0 <= j && j + 5 <= gloss.len() ==> #[trigger] gloss.subrange(j, j + 5) != "[trn]"@,
        forall|j: int|
            0 <= j && j + 6 <= gloss.len() ==> #[trigger] gloss.subrange(j, j + 6) != "[/trn]"@,
    ensures
        forall|i: int|
            0 <= i && i + 5 <= spec_trn(num, gloss).len() ==> #[trigger] spec_trn(
                num,
                gloss,
            ).subrange(i, i + 5) != "[trn]"@,
        forall|i: int|
            0 <= i && i + 6 <= spec_trn(num, gloss).len() ==> #[trigger] spec_trn(
                num,
                gloss,
            ).subrange(i, i + 6) != "[/trn]"@,
{
    reveal_strlit("[trn]");
    reveal_strlit("[/trn]");
    let m1 = "[trn]"@;
    let m2 = "[/trn]"@;
    let b = spec_trn(num, gloss);
    assert(m1.len() == 5);
    assert(m2.len() == 6);
    assert forall|j: int| 0 <= j && j + m1.len() <= gloss.len() implies #[trigger] gloss.subrange(
        j,
        j + m1.len() as int,
    ) != m1 by {
        assert(gloss.subrange(j, j + 5) != m1);
    }
    assert forall|j: int| 0 <= j && j + m2.len() <= gloss.len() implies #[trigger] gloss.subrange(
        j,
        j + m2.len() as int,
    ) != m2 by {
        assert(gloss.subrange(j, j + 6) != m2);
    }
    lemma_block_marker_free(num, gloss, m1);
    lemma_block_marker_free(num, gloss, m2);
    assert forall|i: int| 0 <= i && i + 5 <= b.len() implies #[trigger] b.subrange(i, i + 5)
        != m1 by {
        assert(b.subrange(i, i + m1.len() as int) != m1);
    }
    assert forall|i: int| 0 <= i && i + 6 <= b.len() implies #[trigger] b.subrange(i, i + 6)
        != m2 by {
        assert(b.subrange(i, i + m2.len() as int) != m2);
    }
}

/// How many example lines a sense's optional example list yields per gloss.
pub open spec fn spec_example_count(examples: Option<Vec<Example>>) -> nat {
    match examples {
        Option::Some(es) => es@.len(),
        Option::None => 0,
    }
}

proof fn lemma_single_line_trn_count(num: Option<int>, gloss: Seq<char>)
    requires
        !gloss.contains('\n'),
    ensures
        count_char(spec_trn(num, gloss), '\n') == 1,
{
    lemma_count_char_absent(gloss, '\n');
    match num {
        Option::Some(k) => {
            reveal_strlit("\t");
            reveal_strlit(") [trn]");
            reveal_strlit("[/trn]\n");
            let a1 = "\t"@;
            let w = spec_number((k + 1) as nat);
            let a2 = ") [trn]"@;
            let a4 = "[/trn]\n"@;
            lemma_number_digit_chars((k + 1) as nat);
            assert forall|j: int| 0 <= j < w.len() implies w[j] != '\n' by {
                assert(is_digit_char(w[j]));
            }
            assert(!w.contains('\n'));
            lemma_count_char_absent(a1, '\n');
            lemma_count_char_absent(w, '\n');
            lemma_count_char_absent(a2, '\n');
            assert(a4.last() == '\n');
            assert(!a4.drop_last().contains('\n'));
            lemma_count_char_one(a4, '\n');
            lemma_count_char_concat(a1, w, '\n');
            lemma_count_char_concat(a1 + w, a2, '\n');
            lemma_count_char_concat(a1 + w + a2, gloss, '\n');
            lemma_count_char_concat(a1 + w + a2 + gloss, a4, '\n');
        },
        Option::None => {
            reveal_strlit("trn");
            assert(!"trn"@.contains('\n'));
            lemma_tab_tag_count("trn"@, gloss);
        },
    }
}

proof fn lemma_tab_tag_count(tag: Seq<char>, line: Seq<char>)
    requires
        !tag.contains('\n'),
        !line.contains('\n'),
    ensures
        count_char(spec_tab_tag(tag, line), '\n') == 1,
{
    reveal_strlit("\t[");
    reveal_strlit("]");
    reveal_strlit("[/");
    reveal_strlit("]\n");
    let a1 = "\t["@;
    let a2 = "]"@;
    let a3 = "[/"@;
    let a4 = "]\n"@;
    lemma_count_char_absent(a1, '\n');
    lemma_count_char_absent(tag, '\n');
    lemma_count_char_absent(a2, '\n');
    lemma_count_char_absent(line, '\n');
    lemma_count_char_absent(a3, '\n');
    assert(a4.last() == '\n');
    assert(!a4.drop_last().contains('\n'));
    lemma_count_char_one(a4, '\n');
    lemma_count_char_concat(a1, tag, '\n');
    lemma_count_char_concat(a1 + tag, a2, '\n');
    lemma_count_char_concat(a1 + tag + a2, line, '\n');
    lemma_count_char_concat(a1 + tag + a2 + line, a3, '\n');
    lemma_count_char_concat(a1 + tag + a2 + line + a3, tag, '\n');
    lemma_count_char_concat(a1 + tag + a2 + line + a3 + tag, a4, '\n');
}

proof fn lemma_examples_count(es: Seq<Example>)
    requires
        forall|i: int| 0 <= i < es.len() ==> !(#[trigger] es[i]).text@.contains('\n'),
    ensures
        count_char(spec_examples(es), '\n') == es.len(),
    decreases es.len(),
{
    reveal_strlit("ex");
    if es.len() > 0 {
        lemma_examples_count(es.drop_last());
        assert(!es.last().text@.contains('\n'));
        lemma_tab_tag_count("ex"@, es.last().text@);
        lemma_count_char_concat(spec_examples(es.drop_last()), spec_example_line(es.last()), '\n');
    }
}

proof fn lemma_example_block_count(examples: Option<Vec<Example>>)
    requires
        match examples {
            Option::Some(es) => forall|i: int|
                0 <= i < es@.len() ==> !(#[trigger] es@[i]).text@.contains('\n'),
            Option::None => true,
        },
    ensures
        count_char(spec_example_block(examples), '\n') == spec_example_count(examples),
{
    match examples {
        Option::Some(es) => {
            lemma_examples_count(es@);
        },
        Option::None => {},
    }
}

/// In a sense's block each gloss contributes its translation line,
/// immediately followed by the sense's whole example block; the examples
/// repeat in full after every gloss of the sense.
pub proof fn lemma_examples_follow_each_gloss(
    k: int,
    glosses: Seq<String>,
    examples: Option<Vec<Example>>,
)
    requires
        glosses.len() > 0,
    ensures
        spec_glosses(k, glosses, examples) == spec_glosses(k, glosses.drop_last(), examples)
            + spec_trn(Option::Some(k), glosses.last()@) + spec_example_block(examples),
{
    assert(spec_glosses(k, glosses, examples) =~= spec_glosses(k, glosses.drop_last(), examples)
        + spec_trn(Option::Some(k), glosses.last()@) + spec_example_block(examples));
}

/// A sense with N single-line glosses and M single-line examples renders to
/// exactly N·(1+M) lines: one numbered translation line per gloss, each
/// followed by the sense's M example lines.
pub proof fn lemma_sense_line_count(k: int, glosses: Seq<String>, examples: Option<Vec<Example>>)
    requires
        forall|i: int| 0 <= i < glosses.len() ==> !(#[trigger] glosses[i])@.contains('\n'),
        match examples {
            Option::Some(es) => forall|i: int|
                0 <= i < es@.len() ==> !(#[trigger] es@[i]).text@.contains('\n'),
            Option::None => true,
        },
    ensures
        count_char(spec_glosses(k, glosses, examples), '\n') == glosses.len() * (1
            + spec_example_count(examples)),
    decreases glosses.len(),
{
    let m = spec_example_count(examples);
    let l = glosses.len();
    if glosses.len() == 0 {
        assert(l * (1 + m) == 0) by (nonlinear_arith)
            requires
                l == 0,
        ;
    } else {
        lemma_sense_line_count(k, glosses.drop_last(), examples);
        lemma_single_line_trn_count(Option::Some(k), glosses.last()@);
        lemma_example_block_count(examples);
        lemma_count_char_concat(
            spec_trn(Option::Some(k), glosses.last()@),
            spec_example_block(examples),
            '\n',
        );
        lemma_count_char_concat(
            spec_glosses(k, glosses.drop_last(), examples),
            spec_gloss_block(k, glosses.last()@, examples),
            '\n',
        );
        assert((l - 1) * (1 + m) + (1 + m) == l * (1 + m)) by (nonlinear_arith);
    }
}

/// Whether two optional texts are both absent or hold the same characters.
pub open spec fn same_opt_text(a: Option<String>, b: Option<String>) -> bool {
    match a {
        Option::Some(x) => match b {
            Option::Some(y) => x@ == y@,
            Option::None => false,
        },
        Option::None => b is None,
    }
}

/// Whether two sounds hold the same transcription text.
pub open spec fn same_sound(a: Sound, b: Sound) -> bool {
    same_opt_text(a.ipa, b.ipa)
}

/// Whether two examples hold the same sentence text.
pub open spec fn same_example(a: Example, b: Example) -> bool {
    a.text@ == b.text@
}

/// Whether two optional example lists hold the same texts in the same order.
pub open spec fn same_examples(a: Option<Vec<Example>>, b: Option<Vec<Example>>) -> bool {
    match a {
        Option::Some(xs) => match b {
            Option::Some(ys) => xs@.len() == ys@.len() && (forall|i: int|
                0 <= i < xs@.len() ==> same_example(#[trigger] xs@[i], ys@[i])),
            Option::None => false,
        },
        Option::None => b is None,
    }
}

/// Whether two senses hold the same gloss and example texts.
pub open spec fn same_sense(a: Sense, b: Sense) -> bool {
    &&& match a.glosses {
        Option::Some(xs) => match b.glosses {
            Option::Some(ys) => xs@.len() == ys@.len() && (forall|i: int|
                0 <= i < xs@.len() ==> (#[trigger] xs@[i])@ == ys@[i]@),
            Option::None => false,
        },
        Option::None => b.glosses is None,
    }
    &&& same_examples(a.examples, b.examples)
}

/// Whether two entries hold the same texts in every field.
pub open spec fn same_entry(a: Entry, b: Entry) -> bool {
    &&& a.word@ == b.word@
    &&& same_opt_text(a.pos, b.pos)
    &&& match a.sounds {
        Option::Some(xs) => match b.sounds {
            Option::Some(ys) => xs@.len() == ys@.len() && (forall|i: int|
                0 <= i < xs@.len() ==> same_sound(#[trigger] xs@[i], ys@[i])),
            Option::None => false,
        },
        Option::None => b.sounds is None,
    }
    &&& a.senses@.len() == b.senses@.len()
    &&& forall|i: int| 0 <= i < a.senses@.len() ==> same_sense(#[trigger] a.senses@[i], b.senses@[i])
}

proof fn lemma_sounds_congruence(a: Seq<Sound>, b: Seq<Sound>)
    requires
        a.len() == b.len(),
        forall|i: int| 0 <= i < a.len() ==> same_sound(#[trigger] a[i], b[i]),
    ensures
        spec_sounds(a) == spec_sounds(b),
    decreases a.len(),
{
    if a.len() > 0 {
        lemma_sounds_congruence(a.drop_last(), b.drop_last());
        assert(same_sound(a.last(), b.last()));
        assert(spec_sound_line(a.last()) == spec_sound_line(b.last()));
    }
}

proof fn lemma_examples_congruence(a: Seq<Example>, b: Seq<Example>)
    requires
        a.len() == b.len(),
        forall|i: int| 0 <= i < a.len() ==> same_example(#[trigger] a[i], b[i]),
    ensures
        spec_examples(a) == spec_examples(b),
    decreases a.len(),
{
    if a.len() > 0 {
        lemma_examples_congruence(a.drop_last(), b.drop_last());
        assert(same_example(a.last(), b.last()));
        assert(spec_example_line(a.last()) == spec_example_line(b.last()));
    }
}

proof fn lemma_example_block_congruence(a: Option<Vec<Example>>, b: Option<Vec<Example>>)
    requires
        same_examples(a, b),
    ensures
        spec_example_block(a) == spec_example_block(b),
{
    match a {
        Option::Some(xs) => match b {
            Option::Some(ys) => {
                lemma_examples_congruence(xs@, ys@);
            },
            Option::None => {},
        },
        Option::None => {},
    }
}

proof fn lemma_glosses_congruence(
    k: int,
    ga: Seq<String>,
    ea: Option<Vec<Example>>,
    gb: Seq<String>,
    eb: Option<Vec<Example>>,
)
    requires
        ga.len() == gb.len(),
        forall|i: int| 0 <= i < ga.len() ==> (#[trigger] ga[i])@ == gb[i]@,
        same_examples(ea, eb),
    ensures
        spec_glosses(k, ga, ea) == spec_glosses(k, gb, eb),
    decreases ga.len(),
{
    if ga.len() > 0 {
        lemma_glosses_congruence(k, ga.drop_last(), ea, gb.drop_last(), eb);
        lemma_example_block_congruence(ea, eb);
        assert(ga.last()@ == gb.last()@);
        assert(spec_gloss_block(k, ga.last()@, ea) == spec_gloss_block(k, gb.last()@, eb));
    }
}

proof fn lemma_senses_congruence(a: Seq<Sense>, b: Seq<Sense>)
    requires
        a.len() == b.len(),
        forall|i: int| 0 <= i < a.len() ==> same_sense(#[trigger] a[i], b[i]),
    ensures
        spec_senses(a) == spec_senses(b),
    decreases a.len(),
{
    if a.len() > 0 {
        lemma_senses_congruence(a.drop_last(), b.drop_last());
        assert(same_sense(a.last(), b.last()));
        let k = a.len() - 1;
        match a.last().glosses {
            Option::Some(xs) => {
                match b.last().glosses {
                    Option::Some(ys) => {
                        lemma_glosses_congruence(k, xs@, a.last().examples, ys@, b.last().examples);
                    },
                    Option::None => {},
                }
            },
            Option::None => {},
        }
        assert(spec_sense(k, a.last()) == spec_sense(k, b.last()));
    }
}

/// Rendering is a pure function of the entry's textual content: two entries
/// that hold the same texts in every field render to identical output, so
/// rendering the same record twice yields byte-identical output.
pub proof fn lemma_render_same_text(a: Entry, b: Entry)
    requires
        same_entry(a, b),
    ensures
        spec_render_entry(a) == spec_render_entry(b),
{
    match a.sounds {
        Option::Some(xs) => match b.sounds {
            Option::Some(ys) => {
                lemma_sounds_congruence(xs@, ys@);
            },
            Option::None => {},
        },
        Option::None => {},
    }
    lemma_senses_congruence(a.senses@, b.senses@);
    match a.pos {
        Option::Some(x) => {
            match b.pos {
                Option::Some(y) => {
                    assert(spec_tab_tag("p"@, x@) == spec_tab_tag("p"@, y@));
                },
                Option::None => {},
            }
        },
        Option::None => {},
    }
}

} // verus!
