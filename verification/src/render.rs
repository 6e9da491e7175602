//! The entry renderer: composes the ordered sequence of markup lines for one
//! dictionary entry, field by field.

use crate::entry::Entry;
use crate::entry::Example;
use crate::entry::Sense;
use crate::entry::Sound;
use crate::markup::build_ex;
use crate::markup::build_headword;
use crate::markup::build_labels;
use crate::markup::build_transcription;
use crate::markup::build_trn;
use crate::markup::spec_headword;
use crate::markup::spec_tab_tag;
use crate::markup::spec_trn;
use vstd::prelude::*;
use vstd::string::StringExecFns;

verus! {

/// The line contributed by one pronunciation: a `t`-tagged line when it has
/// a transcription, nothing at all when it has none.
pub open spec fn spec_sound_line(s: Sound) -> Seq<char> {
    match s.ipa {
        Option::Some(ipa) => spec_tab_tag("t"@, ipa@),
        Option::None => Seq::empty(),
    }
}

/// The lines contributed by a sequence of pronunciations, in order.
pub open spec fn spec_sounds(ss: Seq<Sound>) -> Seq<char>
    decreases ss.len(),
{
    if ss.len() == 0 {
        Seq::empty()
    } else {
        spec_sounds(ss.drop_last()) + spec_sound_line(ss.last())
    }
}

/// The `ex`-tagged line for one example.
pub open spec fn spec_example_line(e: Example) -> Seq<char> {
    spec_tab_tag("ex"@, e.text@)
}

/// The lines contributed by a sequence of examples, in order.
pub open spec fn spec_examples(es: Seq<Example>) -> Seq<char>
    decreases es.len(),
{
    if es.len() == 0 {
        Seq::empty()
    } else {
        spec_examples(es.drop_last()) + spec_example_line(es.last())
    }
}

/// The lines a sense's example list contributes after each gloss: all of its
/// examples when present, nothing when absent.
pub open spec fn spec_example_block(examples: Option<Vec<Example>>) -> Seq<char> {
    match examples {
        Option::Some(es) => spec_examples(es@),
        Option::None => Seq::empty(),
    }
}

/// The block for one gloss of the sense at 0-based index `k`: its numbered
/// translation line(s), immediately followed by the sense's full example
/// block. The examples repeat after every gloss of the sense.
pub open spec fn spec_gloss_block(k: int, gloss: Seq<char>, examples: Option<Vec<Example>>) -> Seq<
    char,
> {
    spec_trn(Option::Some(k), gloss) + spec_example_block(examples)
}

/// The blocks for a sense's glosses, in order, each with the shared examples.
pub open spec fn spec_glosses(k: int, glosses: Seq<String>, examples: Option<Vec<Example>>) -> Seq<
    char,
>
    decreases glosses.len(),
{
    if glosses.len() == 0 {
        Seq::empty()
    } else {
        spec_glosses(k, glosses.drop_last(), examples) + spec_gloss_block(
            k,
            glosses.last()@,
            examples,
        )
    }
}

/// The lines contributed by the sense at 0-based index `k`: nothing when its
/// glosses are absent (its examples too are then suppressed, though the index
/// stays consumed for the numbering of later senses).
pub open spec fn spec_sense(k: int, s: Sense) -> Seq<char> {
    match s.glosses {
        Option::Some(gs) => spec_glosses(k, gs@, s.examples),
        Option::None => Seq::empty(),
    }
}

/// The lines contributed by all senses, in order, numbered by position.
pub open spec fn spec_senses(ss: Seq<Sense>) -> Seq<char>
    decreases ss.len(),
{
    if ss.len() == 0 {
        Seq::empty()
    } else {
        spec_senses(ss.drop_last()) + spec_sense(ss.len() - 1, ss.last())
    }
}

/// The full rendering of one entry: the bare headword line, then the
/// part-of-speech line if present, then one transcription line per sound
/// that has one, then the numbered sense blocks.
pub open spec fn spec_render_entry(e: Entry) -> Seq<char> {
    spec_headword(e.word@) + (match e.pos {
        Option::Some(p) => spec_tab_tag("p"@, p@),
        Option::None => Seq::empty(),
    }) + (match e.sounds {
        Option::Some(ss) => spec_sounds(ss@),
        Option::None => Seq::empty(),
    }) + spec_senses(e.senses@)
}

/// Renders one entry into the markup text appended to the output file:
/// exactly the line sequence of [`spec_render_entry`].
pub fn render_entry(entry: &Entry) -> (r: String)
    ensures
        r@ == spec_render_entry(*entry),
{
    let mut out = build_headword(&entry.word);
    match &entry.pos {
        Option::Some(pos) => {
            let line = build_labels(pos);
            out.append(line.as_str());
        },
        Option::None => {},
    }
    match &entry.sounds {
        Option::Some(sounds) => {
            let ghost head = out@;
            let mut i: usize = 0;
            proof {
                assert(sounds@.take(0) =~= Seq::<Sound>::empty());
                assert(out@ =~= head + spec_sounds(sounds@.take(0)));
            }
            while i < sounds.len()
                invariant
                    i <= sounds@.len(),
                    out@ == head + spec_sounds(sounds@.take(i as int)),
                decreases sounds@.len() - i,
            {
                match &sounds[i].ipa {
                    Option::Some(ipa) => {
                        let line = build_transcription(ipa);
                        out.append(line.as_str());
                    },
                    Option::None => {},
                }
                proof {
                    assert(sounds@.take(i + 1).drop_last() =~= sounds@.take(i as int));
                    assert(sounds@.take(i + 1).last() == sounds@[i as int]);
                    assert(out@ =~= head + spec_sounds(sounds@.take(i + 1)));
                }
                i += 1;
            }
            proof {
                assert(sounds@.take(sounds@.len() as int) =~= sounds@);
            }
        },
        Option::None => {},
    }
    let ghost head_senses = out@;
    let mut k: usize = 0;
    proof {
        assert(entry.senses@.take(0) =~= Seq::<Sense>::empty());
        assert(out@ =~= head_senses + spec_senses(entry.senses@.take(0)));
    }
    while k < entry.senses.len()
        invariant
            k <= entry.senses@.len(),
            out@ == head_senses + spec_senses(entry.senses@.take(k as int)),
        decreases entry.senses@.len() - k,
    {
        let sense = &entry.senses[k];
        match &sense.glosses {
            Option::Some(glosses) => {
                let ghost head_glosses = out@;
                let mut j: usize = 0;
                proof {
                    assert(glosses@.take(0) =~= Seq::<String>::empty());
                    assert(out@ =~= head_glosses + spec_glosses(k as int, glosses@.take(0),
                    sense.examples));
                }
                while j < glosses.len()
                    invariant
                        j <= glosses@.len(),
                        k < entry.senses@.len(),
                        k < usize::MAX,
                        *sense == entry.senses@[k as int],
                        glosses@ == entry.senses@[k as int].glosses->Some_0@,
                        entry.senses@[k as int].glosses is Some,
                        out@ == head_glosses + spec_glosses(
                            k as int,
                            glosses@.take(j as int),
                            entry.senses@[k as int].examples,
                        ),
                    decreases glosses@.len() - j,
                {
                    let line = build_trn(Option::Some(k), &glosses[j]);
                    out.append(line.as_str());
                    match &sense.examples {
                        Option::Some(examples) => {
                            let ghost head_examples = out@;
                            let mut m: usize = 0;
                            proof {
                                assert(examples@.take(0) =~= Seq::<Example>::empty());
                                assert(out@ =~= head_examples + spec_examples(examples@.take(0)));
                            }
                            while m < examples.len()
                                invariant
                                    m <= examples@.len(),
                                    k < entry.senses@.len(),
                                    examples@ == entry.senses@[k as int].examples->Some_0@,
                                    entry.senses@[k as int].examples is Some,
                                    out@ == head_examples + spec_examples(examples@.take(m as int)),
                                decreases examples@.len() - m,
                            {
                                let line = build_ex(&examples[m].text);
                                out.append(line.as_str());
                                proof {
                                    assert(examples@.take(m + 1).drop_last() =~= examples@.take(
                                        m as int,
                                    ));
                                    assert(examples@.take(m + 1).last() == examples@[m as int]);
                                    assert(out@ =~= head_examples + spec_examples(
                                        examples@.take(m + 1),
                                    ));
                                }
                                m += 1;
                            }
                            proof {
                                assert(examples@.take(examples@.len() as int) =~= examples@);
                            }
                        },
                        Option::None => {},
                    }
                    proof {
                        assert(glosses@.take(j + 1).drop_last() =~= glosses@.take(j as int));
                        assert(glosses@.take(j + 1).last() == glosses@[j as int]);
                        assert(out@ =~= head_glosses + spec_glosses(
                            k as int,
                            glosses@.take(j + 1),
                            entry.senses@[k as int].examples,
                        ));
                    }
                    j += 1;
                }
                proof {
                    assert(glosses@.take(glosses@.len() as int) =~= glosses@);
                    assert(out@ =~= head_senses + spec_senses(entry.senses@.take(k as int))
                        + spec_sense(k as int, entry.senses@[k as int]));
                }
            },
            Option::None => {},
        }
        proof {
            assert(entry.senses@.take(k + 1).drop_last() =~= entry.senses@.take(k as int));
            assert(entry.senses@.take(k + 1).last() == entry.senses@[k as int]);
            assert(out@ =~= head_senses + spec_senses(entry.senses@.take(k + 1)));
        }
        k += 1;
    }
    proof {
        assert(entry.senses@.take(entry.senses@.len() as int) =~= entry.senses@);
        assert(out@ =~= spec_render_entry(*entry));
    }
    out
}

} // verus!
