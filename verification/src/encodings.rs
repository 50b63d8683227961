//! The iterator over the encodings of one instruction.
//!
//! The iterator reads the encoding list of the instruction word by word,
//! asks the predicates that the words name, and yields the encodings whose
//! predicates hold, in the order of the list.

use vstd::prelude::*;
use crate::enc_lists::{
    decode, encodings_after, encodings_from, legalize_from, lemma_list_starts_inside,
    lemma_read_one, list_ok, predicate_holds, read_encodings, read_legalize, read_rest, rest_from,
    step, words_left, EncListEntry, LegalizeCode, Outcomes, Shape, Word, PRED_BITS, PRED_MASK,
    PRED_START,
};
use crate::encoding::Encoding;
use crate::ir::{Function, InstructionData};
use crate::settings::PredicateView;

verus! {

/// The offset that stands for "no encoding list", and for a list that has been
/// read to its end. It is never the offset of a code word.
pub const NOT_FOUND: usize = usize::MAX;

/// `holds` is what the recipe predicate `pred` says of `inst` under `isa`:
/// the predicate never gives the other answer. A recipe without a predicate
/// holds always.
pub open spec fn recipe_admits<'a, RP: Fn(PredicateView<'a>, &'a InstructionData) -> bool>(
    pred: Option<RP>,
    isa: PredicateView<'a>,
    inst: &'a InstructionData,
    holds: bool,
) -> bool {
    match pred {
        Some(p) => !call_ensures(p, (isa, inst), !holds),
        None => holds,
    }
}

/// `holds` is what the instruction predicate `pred` says of `inst` in
/// `func`: the predicate never gives the other answer.
pub open spec fn inst_admits<'a, IP: Fn(&'a Function, &'a InstructionData) -> bool>(
    pred: IP,
    func: &'a Function,
    inst: &'a InstructionData,
    holds: bool,
) -> bool {
    !call_ensures(pred, (func, inst), !holds)
}

/// Every predicate of the two tables can be asked about the instruction.
pub open spec fn predicates_callable<
    'a,
    RP: Fn(PredicateView<'a>, &'a InstructionData) -> bool,
    IP: Fn(&'a Function, &'a InstructionData) -> bool,
>(
    recipe_preds: Seq<Option<RP>>,
    inst_preds: Seq<IP>,
    isa: PredicateView<'a>,
    inst: &'a InstructionData,
    func: &'a Function,
) -> bool {
    &&& forall|i: int|
        0 <= i < recipe_preds.len() ==> ((#[trigger] recipe_preds[i]) matches Some(p)
            ==> call_requires(p, (isa, inst)))
    &&& forall|i: int|
        0 <= i < inst_preds.len() ==> call_requires(#[trigger] inst_preds[i], (func, inst))
}

/// `outcomes` is what the predicates of the two tables, and the ISA
/// predicates, say of the instruction.
///
/// For predicates that are functions of their arguments there is one such
/// value: the one that holds, for each predicate, the answer it gives.
pub open spec fn predicates_admit<
    'a,
    RP: Fn(PredicateView<'a>, &'a InstructionData) -> bool,
    IP: Fn(&'a Function, &'a InstructionData) -> bool,
>(
    recipe_preds: Seq<Option<RP>>,
    inst_preds: Seq<IP>,
    isa: PredicateView<'a>,
    inst: &'a InstructionData,
    func: &'a Function,
    outcomes: Outcomes,
) -> bool {
    &&& outcomes.recipes.len() == recipe_preds.len()
    &&& forall|i: int|
        0 <= i < recipe_preds.len() ==> recipe_admits(
            #[trigger] recipe_preds[i],
            isa,
            inst,
            outcomes.recipes[i],
        )
    &&& outcomes.inst_preds.len() == inst_preds.len()
    &&& forall|i: int|
        0 <= i < inst_preds.len() ==> inst_admits(
            #[trigger] inst_preds[i],
            func,
            inst,
            outcomes.inst_preds[i],
        )
    &&& outcomes.isa_preds == isa@
}

/// `outcomes` has an answer for each predicate of the tables, and holds the
/// ISA predicates as they are.
pub open spec fn outcomes_fit<RP, IP>(
    recipe_preds: Seq<Option<RP>>,
    inst_preds: Seq<IP>,
    isa: PredicateView,
    outcomes: Outcomes,
) -> bool {
    &&& outcomes.recipes.len() == recipe_preds.len()
    &&& outcomes.inst_preds.len() == inst_preds.len()
    &&& outcomes.isa_preds == isa@
}

/// What `outcomes` holds for the predicate that the code word `word` asks,
/// if it asks one, is an answer that the predicate can give.
pub open spec fn word_admits<
    'a,
    RP: Fn(PredicateView<'a>, &'a InstructionData) -> bool,
    IP: Fn(&'a Function, &'a InstructionData) -> bool,
>(
    recipe_preds: Seq<Option<RP>>,
    inst_preds: Seq<IP>,
    isa: PredicateView<'a>,
    inst: &'a InstructionData,
    func: &'a Function,
    outcomes: Outcomes,
    word: EncListEntry,
) -> bool {
    match decode(word, outcomes.recipes.len()) {
        Word::Recipe { recipe, .. } => recipe_admits(
            recipe_preds[recipe],
            isa,
            inst,
            outcomes.recipes[recipe],
        ),
        Word::Legalize { .. } => true,
        Word::Predicate { pred, .. } => pred < inst_preds.len() ==> inst_admits(
            inst_preds[pred],
            func,
            inst,
            outcomes.inst_preds[pred],
        ),
    }
}

/// The predicates that are asked when the list is read from offset `at` to
/// its end say what `outcomes` holds for them. Of the predicates that are not
/// asked on the way, nothing is required.
pub open spec fn asked_admit<
    'a,
    RP: Fn(PredicateView<'a>, &'a InstructionData) -> bool,
    IP: Fn(&'a Function, &'a InstructionData) -> bool,
>(
    words: Seq<EncListEntry>,
    recipe_preds: Seq<Option<RP>>,
    inst_preds: Seq<IP>,
    isa: PredicateView<'a>,
    inst: &'a InstructionData,
    func: &'a Function,
    outcomes: Outcomes,
    at: int,
) -> bool
    decreases words_left(words, at),
{
    if 0 <= at < words.len() {
        &&& word_admits(recipe_preds, inst_preds, isa, inst, func, outcomes, words[at])
        &&& match step(words, outcomes, at).next {
            Some(next) => asked_admit(
                words,
                recipe_preds,
                inst_preds,
                isa,
                inst,
                func,
                outcomes,
                next,
            ),
            None => true,
        }
    } else {
        true
    }
}

/// Outcomes that all predicates admit are admitted by those that are asked.
pub proof fn lemma_admitted_is_asked<
    'a,
    RP: Fn(PredicateView<'a>, &'a InstructionData) -> bool,
    IP: Fn(&'a Function, &'a InstructionData) -> bool,
>(
    words: Seq<EncListEntry>,
    recipe_preds: Seq<Option<RP>>,
    inst_preds: Seq<IP>,
    isa: PredicateView<'a>,
    inst: &'a InstructionData,
    func: &'a Function,
    outcomes: Outcomes,
    at: int,
)
    requires
        predicates_admit(recipe_preds, inst_preds, isa, inst, func, outcomes),
    ensures
        outcomes_fit(recipe_preds, inst_preds, isa, outcomes),
        asked_admit(words, recipe_preds, inst_preds, isa, inst, func, outcomes, at),
    decreases words_left(words, at),
{
    if 0 <= at < words.len() {
        match step(words, outcomes, at).next {
            Some(next) => lemma_admitted_is_asked(
                words,
                recipe_preds,
                inst_preds,
                isa,
                inst,
                func,
                outcomes,
                next,
            ),
            None => {},
        }
    }
}

/// No predicate of the two tables gives two different answers about the
/// instruction.
pub open spec fn predicates_single_valued<
    'a,
    RP: Fn(PredicateView<'a>, &'a InstructionData) -> bool,
    IP: Fn(&'a Function, &'a InstructionData) -> bool,
>(
    recipe_preds: Seq<Option<RP>>,
    inst_preds: Seq<IP>,
    isa: PredicateView<'a>,
    inst: &'a InstructionData,
    func: &'a Function,
) -> bool {
    &&& forall|i: int|
        0 <= i < recipe_preds.len() ==> ((#[trigger] recipe_preds[i]) matches Some(p) ==> !(
        call_ensures(p, (isa, inst), true) && call_ensures(p, (isa, inst), false)))
    &&& forall|i: int|
        0 <= i < inst_preds.len() ==> !(call_ensures(#[trigger] inst_preds[i], (func, inst), true)
            && call_ensures(inst_preds[i], (func, inst), false))
}

/// Predicates that give no two answers say something of the instruction:
/// there are outcomes that they admit, and so what the iterator yields is
/// determined.
pub proof fn lemma_single_valued_predicates_admit<
    'a,
    RP: Fn(PredicateView<'a>, &'a InstructionData) -> bool,
    IP: Fn(&'a Function, &'a InstructionData) -> bool,
>(
    recipe_preds: Seq<Option<RP>>,
    inst_preds: Seq<IP>,
    isa: PredicateView<'a>,
    inst: &'a InstructionData,
    func: &'a Function,
) -> (outcomes: Outcomes)
    requires
        predicates_single_valued(recipe_preds, inst_preds, isa, inst, func),
    ensures
        predicates_admit(recipe_preds, inst_preds, isa, inst, func, outcomes),
{
    let outcomes = Outcomes {
        recipes: Seq::new(
            recipe_preds.len(),
            |i: int|
                match recipe_preds[i] {
                    Some(p) => call_ensures(p, (isa, inst), true),
                    None => true,
                },
        ),
        inst_preds: Seq::new(
            inst_preds.len(),
            |i: int| call_ensures(inst_preds[i], (func, inst), true),
        ),
        isa_preds: isa@,
    };
    outcomes
}

/// The sizes of the tables that an encoding list is read with.
pub open spec fn shape_with<L, RP, IP>(
    legalize_actions: Seq<L>,
    recipe_preds: Seq<Option<RP>>,
    inst_preds: Seq<IP>,
    isa: PredicateView,
) -> Shape {
    Shape {
        recipes: recipe_preds.len(),
        inst_preds: inst_preds.len(),
        isa_preds: isa@.len(),
        legalize_actions: legalize_actions.len(),
    }
}

/// The encodings from offset `offset` on, where `NOT_FOUND` is the end.
pub open spec fn encodings_at(words: Seq<EncListEntry>, outcomes: Outcomes, offset: usize) -> Seq<
    Encoding,
> {
    if offset == NOT_FOUND {
        Seq::empty()
    } else {
        encodings_from(words, outcomes, offset as int)
    }
}

/// The legalization action in force after reading from offset `offset` on,
/// where `NOT_FOUND` is the end.
pub open spec fn legalize_at(
    words: Seq<EncListEntry>,
    outcomes: Outcomes,
    offset: usize,
    default: LegalizeCode,
) -> LegalizeCode {
    if offset == NOT_FOUND {
        default
    } else {
        legalize_from(words, outcomes, offset as int, default)
    }
}

/// The offset that stands for the place `next`.
pub open spec fn offset_of(next: Option<int>) -> int {
    match next {
        Some(at) => at,
        None => NOT_FOUND as int,
    }
}

/// The offset at which reading rests once the next encoding has been
/// yielded, reading from offset `offset` on, where `NOT_FOUND` is the end.
pub open spec fn rest_at(words: Seq<EncListEntry>, outcomes: Outcomes, offset: usize) -> int {
    if offset == NOT_FOUND {
        NOT_FOUND as int
    } else {
        offset_of(rest_from(words, outcomes, offset as int))
    }
}

/// An iterator over the encodings that are legal for one instruction, most
/// preferred first.
pub struct Encodings<'a, L, RP, IP> {
    // Current offset into `enclist`, or `NOT_FOUND` after we've reached the end.
    offset: usize,
    // Legalization code to use if no encoding is found.
    legalize: LegalizeCode,
    inst: &'a InstructionData,
    func: &'a Function,
    enclist: &'a [EncListEntry],
    legalize_actions: &'a [L],
    recipe_preds: &'a [Option<RP>],
    inst_preds: &'a [IP],
    isa_preds: PredicateView<'a>,
}

/// An iterator over encodings, as a mathematical value: all that the
/// iterator holds.
pub struct EncodingsView<'a, L, RP, IP> {
    /// The offset of the next code word to read, or `NOT_FOUND`.
    pub offset: usize,
    /// The legalization code now in force.
    pub legalize: LegalizeCode,
    /// The instruction that encodings are sought for.
    pub inst: &'a InstructionData,
    /// The function that owns the instruction.
    pub func: &'a Function,
    /// The code words of all encoding lists.
    pub words: Seq<EncListEntry>,
    /// The legalization actions of the target.
    pub actions: Seq<L>,
    /// The predicate of each recipe, if it has one.
    pub recipe_preds: Seq<Option<RP>>,
    /// The instruction predicates.
    pub inst_preds: Seq<IP>,
    /// The ISA predicates.
    pub isa_preds: PredicateView<'a>,
}

impl<'a, L, RP, IP> View for Encodings<'a, L, RP, IP> {
    type V = EncodingsView<'a, L, RP, IP>;

    closed spec fn view(&self) -> EncodingsView<'a, L, RP, IP> {
        EncodingsView {
            offset: self.offset,
            legalize: self.legalize,
            inst: self.inst,
            func: self.func,
            words: self.enclist@,
            actions: self.legalize_actions@,
            recipe_preds: self.recipe_preds@,
            inst_preds: self.inst_preds@,
            isa_preds: self.isa_preds,
        }
    }
}

impl<'a, L, RP, IP> EncodingsView<'a, L, RP, IP> {
    /// The sizes of the tables that the code words refer to.
    pub open spec fn shape(self) -> Shape {
        shape_with(self.actions, self.recipe_preds, self.inst_preds, self.isa_preds)
    }

    /// The offset is that of a sound list, or the end.
    pub open spec fn cursor_ok(self) -> bool {
        self.offset == NOT_FOUND || list_ok(self.words, self.shape(), self.offset as int)
    }

    /// The legalization code in force names an action.
    pub open spec fn legalize_ok(self) -> bool {
        self.legalize < self.actions.len()
    }

    /// The encodings that the iterator has yet to yield, if the predicates
    /// say `outcomes`.
    pub open spec fn remaining(self, outcomes: Outcomes) -> Seq<Encoding> {
        encodings_at(self.words, outcomes, self.offset)
    }

    /// The legalization code that will be in force when the iterator is
    /// exhausted, if the predicates say `outcomes`.
    pub open spec fn resulting_legalize(self, outcomes: Outcomes) -> LegalizeCode {
        legalize_at(self.words, outcomes, self.offset, self.legalize)
    }

    /// The offset at which the iterator rests after one call of `next`, if
    /// the predicates say `outcomes`: the place that the word that yields
    /// leads to, and `NOT_FOUND` if that word is the last of its list or no
    /// encoding is left.
    pub open spec fn resting_offset(self, outcomes: Outcomes) -> int {
        rest_at(self.words, outcomes, self.offset)
    }

    /// How many code words lie at the offset of the iterator and after it.
    pub open spec fn words_ahead(self) -> nat {
        words_left(self.words, self.offset as int)
    }

    /// The iterator has been read to its end.
    pub open spec fn is_exhausted(self) -> bool {
        self.offset == NOT_FOUND
    }

    /// The iterator moved on to `offset` with `legalize` in force.
    pub open spec fn moved_to(self, offset: usize, legalize: LegalizeCode) -> Self {
        EncodingsView { offset, legalize, ..self }
    }

    /// One call of `next` that returns `found` takes the iterator to
    /// `after`, if the predicates say `outcomes`: `found` is the first of the
    /// encodings that were left, `after` has the others left and the same
    /// legalization code in force; or none was left and `after` holds the
    /// resulting legalization code. Either way `after` rests where reading
    /// up to the next encoding rests.
    pub open spec fn yields(self, found: Option<Encoding>, after: Self, outcomes: Outcomes) -> bool {
        &&& after.offset == self.resting_offset(outcomes)
        &&& after.resulting_legalize(outcomes) == self.resulting_legalize(outcomes)
        &&& match found {
            Some(encoding) => {
                &&& self.remaining(outcomes).len() > 0
                &&& encoding == self.remaining(outcomes)[0]
                &&& after.remaining(outcomes) == self.remaining(outcomes).skip(1)
                &&& after.legalize == self.legalize
            },
            None => {
                &&& self.remaining(outcomes).len() == 0
                &&& after.legalize == self.resulting_legalize(outcomes)
            },
        }
    }
}

impl<
    'a,
    L,
    RP: Fn(PredicateView<'a>, &'a InstructionData) -> bool,
    IP: Fn(&'a Function, &'a InstructionData) -> bool,
> EncodingsView<'a, L, RP, IP> {
    /// Every predicate can be asked about the instruction.
    pub open spec fn callable(self) -> bool {
        predicates_callable(self.recipe_preds, self.inst_preds, self.isa_preds, self.inst, self.func)
    }

    /// `outcomes` is what the predicates say of the instruction: it holds,
    /// for each predicate, an answer that the predicate can give.
    pub open spec fn admits(self, outcomes: Outcomes) -> bool {
        predicates_admit(
            self.recipe_preds,
            self.inst_preds,
            self.isa_preds,
            self.inst,
            self.func,
            outcomes,
        )
    }

    /// `outcomes` is what the predicates say that the iterator asks from
    /// where it stands to the end of its list: it holds, for each of these,
    /// an answer that the predicate can give, and the ISA predicates as they
    /// are.
    pub open spec fn asks(self, outcomes: Outcomes) -> bool {
        &&& outcomes_fit(self.recipe_preds, self.inst_preds, self.isa_preds, outcomes)
        &&& self.offset == NOT_FOUND || asked_admit(
            self.words,
            self.recipe_preds,
            self.inst_preds,
            self.isa_preds,
            self.inst,
            self.func,
            outcomes,
            self.offset as int,
        )
    }

    /// Outcomes that all predicates admit are admitted by those that the
    /// iterator asks.
    pub proof fn lemma_admits_asks(self, outcomes: Outcomes)
        requires
            self.admits(outcomes),
        ensures
            self.asks(outcomes),
    {
        lemma_admitted_is_asked(
            self.words,
            self.recipe_preds,
            self.inst_preds,
            self.isa_preds,
            self.inst,
            self.func,
            outcomes,
            self.offset as int,
        );
    }

    /// The iterator can be advanced without fault: the list it stands in is
    /// sound, the legalization code names an action, and the predicates can
    /// be asked.
    pub open spec fn wf(self) -> bool {
        &&& self.cursor_ok()
        &&& self.legalize_ok()
        &&& self.callable()
    }
}

/// What an iterator yields depends on the code words, on what the predicates
/// say and on the offset it starts at, and on nothing else: two iterators
/// that agree in these yield the same encodings in the same order, and rest
/// at the same offsets on the way.
pub proof fn lemma_same_list_same_encodings<'a, L, RP, IP>(
    a: EncodingsView<'a, L, RP, IP>,
    b: EncodingsView<'a, L, RP, IP>,
    outcomes: Outcomes,
)
    requires
        a.words == b.words,
        a.offset == b.offset,
    ensures
        a.remaining(outcomes) == b.remaining(outcomes),
        a.resting_offset(outcomes) == b.resting_offset(outcomes),
        a.legalize == b.legalize ==> a.resulting_legalize(outcomes) == b.resulting_legalize(
            outcomes,
        ),
{
}

impl<
    'a,
    L: Copy,
    RP: Fn(PredicateView<'a>, &'a InstructionData) -> bool,
    IP: Fn(&'a Function, &'a InstructionData) -> bool,
> Encodings<'a, L, RP, IP> {
    /// Creates a new instance of `Encodings`.
    ///
    /// The iterator searches the encoding list that starts at `offset` for
    /// encodings that apply to `inst`. With `NOT_FOUND` for `offset` it yields
    /// nothing, and `legalize` is the resulting legalization code.
    pub fn new(
        offset: usize,
        legalize: LegalizeCode,
        inst: &'a InstructionData,
        func: &'a Function,
        enclist: &'a [EncListEntry],
        legalize_actions: &'a [L],
        recipe_preds: &'a [Option<RP>],
        inst_preds: &'a [IP],
        isa_preds: PredicateView<'a>,
    ) -> (encodings: Self)
        ensures
            encodings@ == (EncodingsView {
                offset,
                legalize,
                inst,
                func,
                words: enclist@,
                actions: legalize_actions@,
                recipe_preds: recipe_preds@,
                inst_preds: inst_preds@,
                isa_preds,
            }),
    {
        Encodings {
            offset,
            inst,
            func,
            legalize,
            isa_preds,
            recipe_preds,
            inst_preds,
            enclist,
            legalize_actions,
        }
    }

    /// Whether the iterator has been read to its end, so that `legalize` can
    /// be asked.
    pub fn is_exhausted(&self) -> (r: bool)
        ensures
            r == self@.is_exhausted(),
    {
        self.offset == NOT_FOUND
    }

    /// Get the legalization action that caused the enumeration of encodings to stop.
    /// This can be the default legalization action for the type or a custom code for the
    /// instruction.
    ///
    /// This method must only be called once the iterator is exhausted: after
    /// it has returned `None`, or has yielded the last encoding of its list.
    pub fn legalize(&self) -> (action: L)
        requires
            self@.is_exhausted(),
            self@.legalize_ok(),
        ensures
            action == self@.actions[self@.legalize as int],
    {
        self.legalize_actions[self.legalize as usize]
    }

    /// The next encoding that is legal for the instruction, or `None` when
    /// there is none left.
    ///
    /// Once it has returned `None`, the iterator is exhausted and `legalize`
    /// gives the action to take if no encoding was found.
    pub fn next(&mut self) -> (found: Option<Encoding>)
        requires
            old(self)@.wf(),
        ensures
            final(self)@.wf(),
            final(self)@ == old(self)@.moved_to(final(self)@.offset, final(self)@.legalize),
            found is None ==> final(self)@.is_exhausted(),
            found is Some ==> final(self)@.legalize == old(self)@.legalize,
            found is Some ==> final(self)@.words_ahead() < old(self)@.words_ahead(),
            old(self)@.is_exhausted() ==> found is None && final(self)@ == old(self)@,
            forall|outcomes: Outcomes| #[trigger]
                old(self)@.asks(outcomes) ==> {
                    &&& old(self)@.yields(found, final(self)@, outcomes)
                    &&& final(self)@.asks(outcomes)
                },
            forall|outcomes: Outcomes| #[trigger]
                old(self)@.admits(outcomes) ==> old(self)@.yields(found, final(self)@, outcomes),
    {
        proof {
            assert forall|outcomes: Outcomes| #[trigger]
                old(self)@.admits(outcomes) implies old(self)@.asks(outcomes) by {
                old(self)@.lemma_admits_asks(outcomes);
            }
        }
        loop
            invariant
                self@.wf(),
                self@ == old(self)@.moved_to(self@.offset, old(self)@.legalize),
                self@.words_ahead() <= old(self)@.words_ahead(),
                old(self)@.is_exhausted() ==> self@ == old(self)@,
                forall|outcomes: Outcomes| #[trigger]
                    old(self)@.admits(outcomes) ==> old(self)@.asks(outcomes),
                forall|outcomes: Outcomes| #[trigger]
                    old(self)@.asks(outcomes) ==> {
                        &&& self@.asks(outcomes)
                        &&& self@.remaining(outcomes) == old(self)@.remaining(outcomes)
                        &&& self@.resulting_legalize(outcomes) == old(self)@.resulting_legalize(
                            outcomes,
                        )
                        &&& self@.resting_offset(outcomes) == old(self)@.resting_offset(outcomes)
                    },
            decreases words_left(self@.words, self@.offset as int),
        {
            let ghost before = self@;
            let entry: usize = match self.enclist.get(self.offset) {
                Some(word) => *word as usize,
                None => {
                    proof {
                        assert(self.enclist@.len() <= usize::MAX);
                        lemma_list_starts_inside(before.words, before.shape(), before.offset as int);
                        assert forall|outcomes: Outcomes| #[trigger]
                            old(self)@.asks(outcomes) implies old(self)@.yields(
                            None,
                            before,
                            outcomes,
                        ) by {
                            assert(before.remaining(outcomes) == Seq::<Encoding>::empty());
                            assert(before.resulting_legalize(outcomes) == before.legalize);
                        }
                    }
                    return None;
                },
            };
            proof {
                assert(self.enclist@.len() <= usize::MAX);
                assert forall|outcomes: Outcomes| #[trigger]
                    old(self)@.asks(outcomes) implies {
                    &&& before.remaining(outcomes) == read_encodings(
                        before.words,
                        outcomes,
                        before.offset as int,
                    )
                    &&& before.resulting_legalize(outcomes) == read_legalize(
                        before.words,
                        outcomes,
                        before.offset as int,
                        before.legalize,
                    )
                    &&& before.resting_offset(outcomes) == offset_of(
                        read_rest(before.words, outcomes, before.offset as int),
                    )
                    &&& word_admits(
                        before.recipe_preds,
                        before.inst_preds,
                        before.isa_preds,
                        before.inst,
                        before.func,
                        outcomes,
                        before.words[before.offset as int],
                    )
                    &&& step(before.words, outcomes, before.offset as int).next matches Some(next)
                        ==> asked_admit(
                        before.words,
                        before.recipe_preds,
                        before.inst_preds,
                        before.isa_preds,
                        before.inst,
                        before.func,
                        outcomes,
                        next,
                    )
                } by {
                    assert(before.asks(outcomes));
                    lemma_read_one(before.words, outcomes, before.offset as int, before.legalize);
                }
            }

            // Check for "recipe+bits".
            let recipe: usize = entry >> 1;
            assert(entry >> 1 == entry / 2 && entry & 1 == entry % 2) by (bit_vector);
            if let Some(rpred) = self.recipe_preds.get(recipe) {
                assert(*rpred == before.recipe_preds[recipe as int]);
                let bits: usize = self.offset + 1;
                if entry & 1 == 0 {
                    self.offset += 2;  // Next entry.
                } else {
                    self.offset = NOT_FOUND;  // Stop.
                }
                let holds: bool = self.check_recipe(rpred);
                assert(self@.isa_preds == before.isa_preds && self@.inst == before.inst);
                assert(forall|says: bool|
                    recipe_admits(
                        before.recipe_preds[recipe as int],
                        before.isa_preds,
                        before.inst,
                        says,
                    ) ==> holds == says);
                if holds {
                    let encoding = Encoding::new(recipe as u16, self.enclist[bits]);
                    proof {
                        assert forall|outcomes: Outcomes| #[trigger]
                            old(self)@.asks(outcomes) implies {
                            &&& old(self)@.yields(Some(encoding), self@, outcomes)
                            &&& self@.asks(outcomes)
                        } by {
                            let here = step(before.words, outcomes, before.offset as int);
                            assert(recipe_admits(
                                before.recipe_preds[recipe as int],
                                before.isa_preds,
                                before.inst,
                                outcomes.recipes[recipe as int],
                            ));
                            assert(here.found == Some(encoding));
                            assert(self.offset == offset_of(here.next));
                            assert(self@.remaining(outcomes) == encodings_after(
                                before.words,
                                outcomes,
                                here.next,
                            ));
                            assert(before.remaining(outcomes) == seq![encoding] + self@.remaining(
                                outcomes,
                            ));
                            assert((seq![encoding] + self@.remaining(outcomes)).skip(1)
                                == self@.remaining(outcomes));
                        }
                    }
                    return Some(encoding);
                }
                proof {
                    assert forall|outcomes: Outcomes| #[trigger]
                        old(self)@.asks(outcomes) implies {
                        &&& self@.asks(outcomes)
                        &&& self@.remaining(outcomes) == before.remaining(outcomes)
                        &&& self@.resulting_legalize(outcomes) == before.resulting_legalize(
                            outcomes,
                        )
                        &&& self@.resting_offset(outcomes) == before.resting_offset(outcomes)
                    } by {
                        let here = step(before.words, outcomes, before.offset as int);
                        assert(recipe_admits(
                            before.recipe_preds[recipe as int],
                            before.isa_preds,
                            before.inst,
                            outcomes.recipes[recipe as int],
                        ));
                        assert(here.found is None);
                        assert(self.offset == offset_of(here.next));
                    }
                }
                continue ;
            }
            // Check for "stop with legalize".

            if entry < PRED_START {
                self.legalize = (entry - 2 * self.recipe_preds.len()) as LegalizeCode;
                self.offset = NOT_FOUND;  // Stop.
                proof {
                    assert forall|outcomes: Outcomes| #[trigger]
                        old(self)@.asks(outcomes) implies {
                        &&& old(self)@.yields(None, self@, outcomes)
                        &&& self@.asks(outcomes)
                    } by {
                        let here = step(before.words, outcomes, before.offset as int);
                        assert(here.legalize == Some(self.legalize));
                    }
                }
                return None;
            }
            // Finally, this must be a predicate entry.

            let pred_entry: usize = entry - PRED_START;
            let skip: usize = pred_entry >> PRED_BITS;
            let pred: usize = pred_entry & PRED_MASK;
            assert(pred_entry >> 12 == pred_entry / 0x1000 && pred_entry & 0xfff == pred_entry
                % 0x1000) by (bit_vector);

            let holds: bool = self.check_pred(pred);
            proof {
                assert forall|outcomes: Outcomes| #[trigger]
                    old(self)@.asks(outcomes) implies holds == predicate_holds(
                    outcomes,
                    pred as int,
                ) by {
                    if pred < before.inst_preds.len() {
                        assert(inst_admits(
                            before.inst_preds[pred as int],
                            before.func,
                            before.inst,
                            outcomes.inst_preds[pred as int],
                        ));
                    }
                }
            }
            if holds {
                self.offset += 1;
            } else if skip == 0 {
                self.offset = NOT_FOUND;  // Stop.
                proof {
                    assert forall|outcomes: Outcomes| #[trigger]
                        old(self)@.asks(outcomes) implies {
                        &&& old(self)@.yields(None, self@, outcomes)
                        &&& self@.asks(outcomes)
                    } by {
                        let here = step(before.words, outcomes, before.offset as int);
                        assert(here.next is None);
                    }
                }
                return None;
            } else {
                assert(list_ok(self@.words, self@.shape(), self.offset + 1 + skip));
                self.offset += 1 + skip;
            }
            proof {
                assert forall|outcomes: Outcomes| #[trigger]
                    old(self)@.asks(outcomes) implies {
                    &&& self@.asks(outcomes)
                    &&& self@.remaining(outcomes) == before.remaining(outcomes)
                    &&& self@.resulting_legalize(outcomes) == before.resulting_legalize(outcomes)
                    &&& self@.resting_offset(outcomes) == before.resting_offset(outcomes)
                } by {
                    let here = step(before.words, outcomes, before.offset as int);
                    assert(here.next == Some(self.offset as int));
                }
            }
        }
    }

    /// All the encodings that are left, most preferred first. Afterwards the
    /// iterator is exhausted.
    pub fn collect(&mut self) -> (all: Vec<Encoding>)
        requires
            old(self)@.wf(),
        ensures
            final(self)@.wf(),
            final(self)@.is_exhausted(),
            final(self)@ == old(self)@.moved_to(NOT_FOUND, final(self)@.legalize),
            old(self)@.is_exhausted() ==> all@ == Seq::<Encoding>::empty() && final(self)@ == old(
                self,
            )@,
            forall|outcomes: Outcomes| #[trigger]
                old(self)@.asks(outcomes) ==> {
                    &&& all@ == old(self)@.remaining(outcomes)
                    &&& final(self)@.legalize == old(self)@.resulting_legalize(outcomes)
                },
            forall|outcomes: Outcomes| #[trigger]
                old(self)@.admits(outcomes) ==> {
                    &&& all@ == old(self)@.remaining(outcomes)
                    &&& final(self)@.legalize == old(self)@.resulting_legalize(outcomes)
                },
    {
        proof {
            assert forall|outcomes: Outcomes| #[trigger]
                old(self)@.admits(outcomes) implies old(self)@.asks(outcomes) by {
                old(self)@.lemma_admits_asks(outcomes);
            }
        }
        let mut all: Vec<Encoding> = Vec::new();
        loop
            invariant
                self@.wf(),
                self@ == old(self)@.moved_to(self@.offset, self@.legalize),
                old(self)@.is_exhausted() ==> all@ == Seq::<Encoding>::empty() && self@ == old(
                    self,
                )@,
                forall|outcomes: Outcomes| #[trigger]
                    old(self)@.admits(outcomes) ==> old(self)@.asks(outcomes),
                forall|outcomes: Outcomes| #[trigger]
                    old(self)@.asks(outcomes) ==> {
                        &&& self@.asks(outcomes)
                        &&& all@ + self@.remaining(outcomes) == old(self)@.remaining(outcomes)
                        &&& self@.resulting_legalize(outcomes) == old(self)@.resulting_legalize(
                            outcomes,
                        )
                    },
            decreases self@.words_ahead(),
        {
            let ghost before = self@;
            let ghost sofar = all@;
            match self.next() {
                Some(encoding) => {
                    all.push(encoding);
                    proof {
                        assert forall|outcomes: Outcomes| #[trigger]
                            old(self)@.asks(outcomes) implies {
                            &&& self@.asks(outcomes)
                            &&& all@ + self@.remaining(outcomes) == old(self)@.remaining(outcomes)
                            &&& self@.resulting_legalize(outcomes) == old(self)@.resulting_legalize(
                                outcomes,
                            )
                        } by {
                            assert(before.asks(outcomes));
                            assert(before.yields(Some(encoding), self@, outcomes));
                            let left = before.remaining(outcomes);
                            assert(left == seq![encoding] + left.skip(1));
                            assert(all@ + left.skip(1) == sofar + left);
                        }
                    }
                },
                None => {
                    proof {
                        assert forall|outcomes: Outcomes| #[trigger]
                            old(self)@.asks(outcomes) implies {
                            &&& all@ == old(self)@.remaining(outcomes)
                            &&& self@.legalize == old(self)@.resulting_legalize(outcomes)
                        } by {
                            assert(before.asks(outcomes));
                            assert(before.yields(None, self@, outcomes));
                            assert(all@ + Seq::<Encoding>::empty() == all@);
                        }
                    }
                    return all;
                },
            }
        }
    }

    /// Check if the `rpred` recipe predicate is satisfied.
    fn check_recipe(&self, rpred: &Option<RP>) -> (r: bool)
        requires
            rpred matches Some(p) ==> call_requires(*p, (self@.isa_preds, self@.inst)),
        ensures
            rpred is None ==> r,
            forall|holds: bool|
                recipe_admits(*rpred, self@.isa_preds, self@.inst, holds) ==> r == holds,
    {
        match rpred {
            Some(p) => p(self.isa_preds, self.inst),
            None => true,
        }
    }

    /// Check an instruction or isa predicate.
    fn check_pred(&self, pred: usize) -> (r: bool)
        requires
            pred < self@.inst_preds.len() + self@.isa_preds@.len(),
            pred < self@.inst_preds.len() ==> call_requires(
                self@.inst_preds[pred as int],
                (self@.func, self@.inst),
            ),
        ensures
            pred >= self@.inst_preds.len() ==> r == self@.isa_preds@[pred - self@.inst_preds.len()],
            pred < self@.inst_preds.len() ==> forall|holds: bool|
                inst_admits(self@.inst_preds[pred as int], self@.func, self@.inst, holds) ==> r
                    == holds,
    {
        match self.inst_preds.get(pred) {
            Some(p) => p(self.func, self.inst),
            None => {
                let pred: usize = pred - self.inst_preds.len();
                self.isa_preds.test(pred)
            },
        }
    }
}

} // verus!
