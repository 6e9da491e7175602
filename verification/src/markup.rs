//! The line-oriented markup: tag wrapping, the per-field line builders and
//! the numbered translation-line formatting with its multi-line policy.

use crate::text::push_number;
use crate::text::push_replaced;
use crate::text::contains_newline;
use crate::text::spec_number;
use crate::text::spec_replace_indent;
use vstd::prelude::*;
use vstd::string::StringExecFns;

verus! {

/// A single tagged line: a leading tab, the opening role marker, the content
/// verbatim, the closing role marker and a line terminator.
pub open spec fn spec_tab_tag(tag: Seq<char>, line: Seq<char>) -> Seq<char> {
    "\t["@ + tag + "]"@ + line + "[/"@ + tag + "]\n"@
}

/// Wraps `line` in the markup of the role `tag`, on one tab-indented line.
/// No escaping is performed: the content is emitted verbatim.
pub fn tab_tag(tag: &str, line: &String) -> (r: String)
    ensures
        r@ == spec_tab_tag(tag@, line@),
{
    let mut out = String::from_str("\t[");
    out.append(tag);
    out.append("]");
    out.append(line.as_str());
    out.append("[/");
    out.append(tag);
    out.append("]\n");
    proof {
        assert(out@ =~= spec_tab_tag(tag@, line@));
    }
    out
}

/// The headword line: the bare word followed by a line terminator, with no
/// tag wrapping.
pub open spec fn spec_headword(word: Seq<char>) -> Seq<char> {
    word + "\n"@
}

/// Builds the headword line for `word`.
pub fn build_headword(word: &String) -> (r: String)
    ensures
        r@ == spec_headword(word@),
{
    let mut out = String::from_str(word.as_str());
    out.append("\n");
    out
}

/// Builds the part-of-speech line: `label` under the role `p`.
pub fn build_labels(label: &String) -> (r: String)
    ensures
        r@ == spec_tab_tag("p"@, label@),
{
    tab_tag("p", label)
}

/// Builds the pronunciation line: `ipa` under the role `t`.
pub fn build_transcription(ipa: &String) -> (r: String)
    ensures
        r@ == spec_tab_tag("t"@, ipa@),
{
    tab_tag("t", ipa)
}

/// Builds the example line: `example` under the role `ex`.
pub fn build_ex(example: &String) -> (r: String)
    ensures
        r@ == spec_tab_tag("ex"@, example@),
{
    tab_tag("ex", example)
}

/// The translation line(s) for one gloss.
///
/// A gloss without embedded line breaks becomes one `trn`-tagged line,
/// prefixed with the 1-based display number `num + 1` when a number is given.
/// A gloss with embedded line breaks is treated as pre-formatted text: its
/// line breaks are re-indented one tab deeper and no `trn` markers are
/// applied — an intentional divergence from the single-line form.
pub open spec fn spec_trn(num: Option<int>, gloss: Seq<char>) -> Seq<char> {
    if !gloss.contains('\n') {
        match num {
            Option::None => spec_tab_tag("trn"@, gloss),
            Option::Some(k) => "\t"@ + spec_number((k + 1) as nat) + ") [trn]"@ + gloss
                + "[/trn]\n"@,
        }
    } else {
        match num {
            Option::None => "\t"@ + spec_replace_indent(gloss) + "\n"@,
            Option::Some(k) => "\t"@ + spec_number((k + 1) as nat) + ") "@
                + spec_replace_indent(gloss) + "\n"@,
        }
    }
}

/// The spec-level display number of an optional 0-based sense index.
pub open spec fn as_int_opt(num: Option<usize>) -> Option<int> {
    match num {
        Option::None => Option::None,
        Option::Some(k) => Option::Some(k as int),
    }
}

/// Builds the translation line(s) for `gloss`, numbered by the 0-based sense
/// index when one is given (see [`spec_trn`]).
pub fn build_trn(num: Option<usize>, gloss: &String) -> (r: String)
    requires
        num matches Some(k) ==> k < usize::MAX,
    ensures
        r@ == spec_trn(as_int_opt(num), gloss@),
{
    let multi = contains_newline(gloss.as_str());
    if !multi {
        match num {
            Option::None => tab_tag("trn", gloss),
            Option::Some(k) => {
                let mut out = String::from_str("\t");
                push_number(&mut out, k + 1);
                out.append(") [trn]");
                out.append(gloss.as_str());
                out.append("[/trn]\n");
                proof {
                    assert(out@ =~= spec_trn(as_int_opt(num), gloss@));
                }
                out
            },
        }
    } else {
        let mut out = String::from_str("\t");
        match num {
            Option::None => {},
            Option::Some(k) => {
                push_number(&mut out, k + 1);
                out.append(") ");
            },
        }
        push_replaced(&mut out, gloss.as_str());
        out.append("\n");
        proof {
            assert(out@ =~= spec_trn(as_int_opt(num), gloss@));
        }
        out
    }
}

/// The fixed dictionary-file preamble: a byte-order mark, the three header
/// directives naming the dictionary and its language pair, and a blank line.
pub open spec fn spec_preamble(name: Seq<char>, index: Seq<char>, contents: Seq<char>) -> Seq<
    char,
> {
    "\u{FEFF}#NAME \""@ + name + "\"\n#INDEX_LANGUAGE \""@ + index + "\"\n#CONTENTS_LANGUAGE \""@
        + contents + "\"\n\n"@
}

/// Builds the preamble for the given dictionary name and language labels.
pub fn build_preable(name: &str, index: &str, contents: &str) -> (r: String)
    ensures
        r@ == spec_preamble(name@, index@, contents@),
{
    let mut out = String::from_str("\u{FEFF}#NAME \"");
    out.append(name);
    out.append("\"\n#INDEX_LANGUAGE \"");
    out.append(index);
    out.append("\"\n#CONTENTS_LANGUAGE \"");
    out.append(contents);
    out.append("\"\n\n");
    proof {
        assert(out@ =~= spec_preamble(name@, index@, contents@));
    }
    out
}

} // verus!
