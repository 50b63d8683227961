//! What a list of encoding code words means.
//!
//! The candidate encodings of one instruction are held as a run of 16-bit code
//! words. A word names a recipe (and is followed by a word of encoding bits),
//! or a predicate that guards the words after it, or the legalization action
//! to fall back on. This module gives the meaning of such a list as
//! mathematical functions; the iterator in `encodings` computes them.

use vstd::prelude::*;
use crate::encoding::Encoding;

verus! {

/// A word of an encoding list.
pub type EncListEntry = u16;

/// The number of a legalization action in the table of the target.
pub type LegalizeCode = u8;

/// The number of bits of a code word that name a predicate.
pub const PRED_BITS: u8 = 12;

/// The bits of a code word that name a predicate.
pub const PRED_MASK: usize = 0xfff;

/// The first code word that stands for a predicate check.
pub const PRED_START: usize = 0x1000;

/// The sizes of the tables that the code words refer to.
pub struct Shape {
    /// How many recipes there are.
    pub recipes: nat,
    /// How many instruction predicates there are.
    pub inst_preds: nat,
    /// How many ISA predicates there are.
    pub isa_preds: nat,
    /// How many legalization actions there are.
    pub legalize_actions: nat,
}

/// What the predicates say of one instruction under one ISA configuration.
pub struct Outcomes {
    /// For each recipe, whether its predicate holds; a recipe without one
    /// holds always.
    pub recipes: Seq<bool>,
    /// Whether each instruction predicate holds.
    pub inst_preds: Seq<bool>,
    /// Whether each ISA predicate holds.
    pub isa_preds: Seq<bool>,
}

/// A code word, taken apart.
pub enum Word {
    /// Use `recipe` with the bits in the next word; `last` if no word of the
    /// list follows the bits.
    Recipe { recipe: int, last: bool },
    /// Stop: no encoding is left, and legalization action `code` applies.
    Legalize { code: int },
    /// Go on if predicate `pred` holds. If it does not, jump over the next
    /// `skip` words, or stop if `skip` is zero.
    Predicate { pred: int, skip: int },
}

/// The meaning of the code word `word` where there are `recipes` recipes.
pub open spec fn decode(word: EncListEntry, recipes: nat) -> Word {
    if word / 2 < recipes {
        Word::Recipe { recipe: word as int / 2, last: word % 2 == 1 }
    } else if word < PRED_START {
        Word::Legalize { code: word - 2 * recipes }
    } else {
        Word::Predicate { pred: (word - PRED_START) % 0x1000, skip: (word - PRED_START) / 0x1000 }
    }
}

/// Whether predicate `pred` holds. The instruction predicates are numbered
/// first, the ISA predicates after them.
pub open spec fn predicate_holds(outcomes: Outcomes, pred: int) -> bool {
    if pred < outcomes.inst_preds.len() {
        outcomes.inst_preds[pred]
    } else {
        outcomes.isa_preds[pred - outcomes.inst_preds.len()]
    }
}

/// What handling one code word comes to.
pub struct Step {
    /// The encoding that the word contributes, if any.
    pub found: Option<Encoding>,
    /// The legalization action that the word names, if any.
    pub legalize: Option<LegalizeCode>,
    /// Where the list goes on; `None` if it ends here.
    pub next: Option<int>,
}

/// What handling the code word at offset `at` comes to.
pub open spec fn step(words: Seq<EncListEntry>, outcomes: Outcomes, at: int) -> Step {
    match decode(words[at], outcomes.recipes.len()) {
        Word::Recipe { recipe, last } => Step {
            found: if outcomes.recipes[recipe] {
                Some(Encoding { recipe: recipe as u16, bits: words[at + 1] })
            } else {
                None
            },
            legalize: None,
            next: if last {
                None
            } else {
                Some(at + 2)
            },
        },
        Word::Legalize { code } => Step { found: None, legalize: Some(code as u8), next: None },
        Word::Predicate { pred, skip } => Step {
            found: None,
            legalize: None,
            next: if predicate_holds(outcomes, pred) {
                Some(at + 1)
            } else if skip == 0 {
                None
            } else {
                Some(at + 1 + skip)
            },
        },
    }
}

/// How many words lie at offset `at` and after it.
pub open spec fn words_left(words: Seq<EncListEntry>, at: int) -> nat {
    if at < words.len() {
        (words.len() - at) as nat
    } else {
        0
    }
}

/// The encodings that the list yields from offset `at` on, in the order of
/// the list, which is the order of preference.
pub open spec fn encodings_from(words: Seq<EncListEntry>, outcomes: Outcomes, at: int) -> Seq<
    Encoding,
>
    decreases words_left(words, at),
{
    if 0 <= at < words.len() {
        let here = step(words, outcomes, at);
        let rest = match here.next {
            Some(next) => encodings_from(words, outcomes, next),
            None => Seq::empty(),
        };
        match here.found {
            Some(encoding) => seq![encoding] + rest,
            None => rest,
        }
    } else {
        Seq::empty()
    }
}

/// The legalization action that is in force once the list has been read from
/// offset `at` to its end: the one that the list names on the way, or
/// `default` if it names none.
pub open spec fn legalize_from(
    words: Seq<EncListEntry>,
    outcomes: Outcomes,
    at: int,
    default: LegalizeCode,
) -> LegalizeCode
    decreases words_left(words, at),
{
    if 0 <= at < words.len() {
        let here = step(words, outcomes, at);
        let code = match here.legalize {
            Some(code) => code,
            None => default,
        };
        match here.next {
            Some(next) => legalize_from(words, outcomes, next, code),
            None => code,
        }
    } else {
        default
    }
}

/// Where reading rests once the next encoding has been yielded, reading from
/// offset `at` on: the place that the yielding word leads to. `None` if the
/// list ends, with that word or without an encoding.
pub open spec fn rest_from(words: Seq<EncListEntry>, outcomes: Outcomes, at: int) -> Option<int>
    decreases words_left(words, at),
{
    if 0 <= at < words.len() {
        let here = step(words, outcomes, at);
        if here.found is Some {
            here.next
        } else {
            match here.next {
                Some(next) => rest_from(words, outcomes, next),
                None => None,
            }
        }
    } else {
        None
    }
}

/// Where reading rests once the next encoding has been yielded, reading from
/// the place `next` on.
pub open spec fn rest_after(
    words: Seq<EncListEntry>,
    outcomes: Outcomes,
    next: Option<int>,
) -> Option<int> {
    match next {
        Some(at) => rest_from(words, outcomes, at),
        None => None,
    }
}

/// The encodings that the list yields from the place `next` on.
pub open spec fn encodings_after(
    words: Seq<EncListEntry>,
    outcomes: Outcomes,
    next: Option<int>,
) -> Seq<Encoding> {
    match next {
        Some(at) => encodings_from(words, outcomes, at),
        None => Seq::empty(),
    }
}

/// The legalization action in force once the list has been read from the
/// place `next` to its end.
pub open spec fn legalize_after(
    words: Seq<EncListEntry>,
    outcomes: Outcomes,
    next: Option<int>,
    default: LegalizeCode,
) -> LegalizeCode {
    match next {
        Some(at) => legalize_from(words, outcomes, at, default),
        None => default,
    }
}

/// The encodings from offset `at` on, in terms of the word at `at`: what
/// that word contributes, and then what the list yields from where it leads.
pub open spec fn read_encodings(words: Seq<EncListEntry>, outcomes: Outcomes, at: int) -> Seq<
    Encoding,
> {
    let here = step(words, outcomes, at);
    match here.found {
        Some(encoding) => seq![encoding] + encodings_after(words, outcomes, here.next),
        None => encodings_after(words, outcomes, here.next),
    }
}

/// The legalization action from offset `at` on, in terms of the word at
/// `at`: the action that the word names, or else `default`, unless the list
/// names another from where the word leads.
pub open spec fn read_legalize(
    words: Seq<EncListEntry>,
    outcomes: Outcomes,
    at: int,
    default: LegalizeCode,
) -> LegalizeCode {
    let here = step(words, outcomes, at);
    legalize_after(
        words,
        outcomes,
        here.next,
        match here.legalize {
            Some(code) => code,
            None => default,
        },
    )
}

/// Where reading rests after the next encoding, in terms of the word at
/// `at`: where that word leads if it yields, and else where reading rests
/// from where it leads.
pub open spec fn read_rest(words: Seq<EncListEntry>, outcomes: Outcomes, at: int) -> Option<int> {
    let here = step(words, outcomes, at);
    if here.found is Some {
        here.next
    } else {
        rest_after(words, outcomes, here.next)
    }
}

/// Reading a list from a code word on is handling that word and then reading
/// on from where it leads.
pub proof fn lemma_read_one(
    words: Seq<EncListEntry>,
    outcomes: Outcomes,
    at: int,
    default: LegalizeCode,
)
    requires
        0 <= at < words.len(),
    ensures
        encodings_from(words, outcomes, at) == read_encodings(words, outcomes, at),
        legalize_from(words, outcomes, at, default) == read_legalize(words, outcomes, at, default),
        rest_from(words, outcomes, at) == read_rest(words, outcomes, at),
{
}

/// Two arrays of code words hold the same words from offset `at` on.
pub open spec fn same_from(a: Seq<EncListEntry>, b: Seq<EncListEntry>, at: int) -> bool {
    &&& a.len() == b.len()
    &&& forall|i: int| at <= i < a.len() ==> a[i] == b[i]
}

/// Reading a sound list from offset `at` looks at no word before `at`.
pub proof fn lemma_reads_forward(
    a: Seq<EncListEntry>,
    b: Seq<EncListEntry>,
    outcomes: Outcomes,
    legalize_actions: nat,
    at: int,
    default: LegalizeCode,
)
    requires
        list_ok(a, shape_of(outcomes, legalize_actions), at),
        same_from(a, b, at),
    ensures
        encodings_from(a, outcomes, at) == encodings_from(b, outcomes, at),
        legalize_from(a, outcomes, at, default) == legalize_from(b, outcomes, at, default),
        rest_from(a, outcomes, at) == rest_from(b, outcomes, at),
    decreases words_left(a, at),
{
    let here = step(a, outcomes, at);
    assert(here == step(b, outcomes, at));
    let code = match here.legalize {
        Some(code) => code,
        None => default,
    };
    match here.next {
        Some(next) => lemma_reads_forward(a, b, outcomes, legalize_actions, next, code),
        None => {},
    }
}

/// In a sound list, a predicate check that fails with a skip of `skip` words
/// goes on right behind the words it skips: it contributes nothing itself,
/// the list goes on at `at + 1 + skip`, and what is read, and where reading
/// rests after the next encoding, does not depend on any word between the
/// check and that place.
pub proof fn lemma_failed_check_skips(
    words: Seq<EncListEntry>,
    other: Seq<EncListEntry>,
    outcomes: Outcomes,
    legalize_actions: nat,
    at: int,
    default: LegalizeCode,
)
    requires
        list_ok(words, shape_of(outcomes, legalize_actions), at),
        decode(words[at], outcomes.recipes.len()) is Predicate,
        decode(words[at], outcomes.recipes.len())->skip > 0,
        !predicate_holds(outcomes, decode(words[at], outcomes.recipes.len())->pred),
        other[at] == words[at],
        same_from(words, other, at + 1 + decode(words[at], outcomes.recipes.len())->skip),
    ensures
        step(words, outcomes, at) == (Step {
            found: None,
            legalize: None,
            next: Some(at + 1 + decode(words[at], outcomes.recipes.len())->skip),
        }),
        encodings_from(words, outcomes, at) == encodings_from(
            words,
            outcomes,
            at + 1 + decode(words[at], outcomes.recipes.len())->skip,
        ),
        legalize_from(words, outcomes, at, default) == legalize_from(
            words,
            outcomes,
            at + 1 + decode(words[at], outcomes.recipes.len())->skip,
            default,
        ),
        rest_from(words, outcomes, at) == rest_from(
            words,
            outcomes,
            at + 1 + decode(words[at], outcomes.recipes.len())->skip,
        ),
        encodings_from(other, outcomes, at) == encodings_from(words, outcomes, at),
        legalize_from(other, outcomes, at, default) == legalize_from(words, outcomes, at, default),
        rest_from(other, outcomes, at) == rest_from(words, outcomes, at),
{
    let target: int = at + 1 + decode(words[at], outcomes.recipes.len())->skip;
    lemma_read_one(words, outcomes, at, default);
    lemma_read_one(other, outcomes, at, default);
    lemma_reads_forward(words, other, outcomes, legalize_actions, target, default);
}

/// A recipe word with its "last" bit set ends the list, whether or not the
/// predicate of the recipe holds: at most the encoding of that word is
/// yielded, reading rests at the end, and the legalization code stays what
/// it was.
pub proof fn lemma_last_recipe_ends_list(
    words: Seq<EncListEntry>,
    outcomes: Outcomes,
    at: int,
    default: LegalizeCode,
)
    requires
        0 <= at < words.len(),
        decode(words[at], outcomes.recipes.len()) is Recipe,
        decode(words[at], outcomes.recipes.len())->last,
    ensures
        step(words, outcomes, at).next is None,
        encodings_from(words, outcomes, at) == if outcomes.recipes[decode(
            words[at],
            outcomes.recipes.len(),
        )->recipe] {
            seq![
                Encoding {
                    recipe: decode(words[at], outcomes.recipes.len())->recipe as u16,
                    bits: words[at + 1],
                },
            ]
        } else {
            Seq::empty()
        },
        legalize_from(words, outcomes, at, default) == default,
        rest_from(words, outcomes, at) is None,
{
    lemma_read_one(words, outcomes, at, default);
}

/// The list that starts at offset `at` is sound: whatever the predicates say,
/// reading it stays inside `words`, meets only recipes, predicates and
/// legalization actions that exist, and comes to an explicit end.
pub open spec fn list_ok(words: Seq<EncListEntry>, shape: Shape, at: int) -> bool
    decreases words_left(words, at),
{
    &&& 0 <= at < words.len()
    &&& match decode(words[at], shape.recipes) {
        Word::Recipe { recipe, last } => {
            &&& at + 1 < words.len()
            &&& last || list_ok(words, shape, at + 2)
        },
        Word::Legalize { code } => code < shape.legalize_actions && code <= LegalizeCode::MAX,
        Word::Predicate { pred, skip } => {
            &&& pred < shape.inst_preds + shape.isa_preds
            &&& list_ok(words, shape, at + 1)
            &&& skip > 0 ==> list_ok(words, shape, at + 1 + skip)
        },
    }
}

/// A sound list starts at a code word.
pub proof fn lemma_list_starts_inside(words: Seq<EncListEntry>, shape: Shape, at: int)
    ensures
        list_ok(words, shape, at) ==> 0 <= at < words.len(),
{
}

/// The sizes of the tables behind `outcomes`, with `legalize_actions`
/// legalization actions.
pub open spec fn shape_of(outcomes: Outcomes, legalize_actions: nat) -> Shape {
    Shape {
        recipes: outcomes.recipes.len(),
        inst_preds: outcomes.inst_preds.len(),
        isa_preds: outcomes.isa_preds.len(),
        legalize_actions,
    }
}

} // verus!
