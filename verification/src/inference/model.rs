//! What is decided around a model: which of its outputs holds the probability,
//! where in the output it stands, and which part of the calibration table
//! applies to it.

use vstd::prelude::*;
use vstd::string::*;

use crate::numbers::{key_of, law_bits_order_numbers, order_key};
use crate::seqs::{
    at_most_one, gather, lemma_gather_append, lemma_gather_one, lemma_gather_step, views,
};
use crate::text::{ascii_lower, contains, contains_text, to_ascii_lower};

verus! {

// ── Inputs ──────────────────────────────────────────────────────────────────

/// Why an input tells no number of features.
#[derive(Debug, Clone, Copy, PartialEq, Eq, Structural)]
pub enum ShapeError {
    /// It has no second dimension.
    NoFeatures,
    /// Its second dimension is no length, as of one that is left open.
    NotALength,
}

/// How many features a model takes whose input has the dimensions `shape`: the
/// first counts snapshots, the second features.
pub fn feature_count(shape: &Vec<i64>) -> (r: Result<usize, ShapeError>)
    ensures
        r == (if shape@.len() < 2 {
            Err(ShapeError::NoFeatures)
        } else if 0 <= shape@[1] <= usize::MAX {
            Ok(shape@[1] as usize)
        } else {
            Err(ShapeError::NotALength)
        }),
{
    if shape.len() < 2 {
        return Err(ShapeError::NoFeatures);
    }
    let n: i64 = shape[1];
    if 0 <= n && n as i128 <= usize::MAX as i128 {
        Ok(n as usize)
    } else {
        Err(ShapeError::NotALength)
    }
}

/// Whether a model that takes `expected` features can be given `given` of them.
pub fn takes_features(given: usize, expected: usize) -> (r: bool)
    ensures
        r == (given == expected),
{
    given == expected
}

// ── Outputs ─────────────────────────────────────────────────────────────────

/// How the probability is taken out of the output of a model.
#[derive(Debug, Clone, Copy, PartialEq, Eq, Structural)]
pub enum OutputKind {
    /// A sequence of maps, as models made of trees have it: the value of the
    /// key 1.
    ZipMap,
    /// A tensor with two columns: the second one.
    Tensor2,
    /// A tensor with one column.
    Tensor1,
}

/// The type of an output of a model.
#[derive(Debug, Clone, Copy, PartialEq, Eq, Structural)]
pub enum OutputType {
    /// A sequence of maps.
    SequenceOfMaps,
    /// A tensor of numbers with a point, with the length of its last dimension.
    FloatTensor { last: Option<i64> },
    /// Anything else, such as a tensor of labels.
    Other,
}

/// An output of a model.
#[derive(Debug)]
pub struct OutputInfo {
    pub name: String,
    pub ty: OutputType,
}

/// What an [`OutputInfo`] holds.
pub type OutputView = (Seq<char>, OutputType);

impl View for OutputInfo {
    type V = OutputView;

    open spec fn view(&self) -> OutputView {
        (self.name@, self.ty)
    }
}

/// How a probability would be taken out of an output of the type `ty`. The type
/// decides and not the name: names differ from one exporter to the next.
pub open spec fn kind_of(ty: OutputType) -> Option<OutputKind> {
    match ty {
        OutputType::SequenceOfMaps => Some(OutputKind::ZipMap),
        OutputType::FloatTensor { last: Some(n) } => if n == 2 {
            Some(OutputKind::Tensor2)
        } else if n == 1 {
            Some(OutputKind::Tensor1)
        } else {
            None
        },
        _ => None,
    }
}

/// The output as a candidate, if a probability can be taken out of it.
pub open spec fn candidate(o: OutputView) -> Option<(Seq<char>, OutputKind)> {
    match kind_of(o.1) {
        Some(kind) => Some((o.0, kind)),
        None => None,
    }
}

/// The outputs that a probability can be taken out of.
pub open spec fn candidates(outputs: Seq<OutputView>) -> Seq<(Seq<char>, OutputKind)> {
    gather(outputs, |o: OutputView| at_most_one(candidate(o)))
}

/// The name speaks of a probability.
pub open spec fn names_probability(name: Seq<char>) -> bool {
    contains_text(ascii_lower(name), "prob"@)
}

/// The first candidate whose name speaks of a probability.
pub open spec fn first_named(list: Seq<(Seq<char>, OutputKind)>) -> Option<(Seq<char>, OutputKind)>
    decreases list.len(),
{
    if list.len() == 0 {
        None
    } else {
        match first_named(list.drop_last()) {
            Some(c) => Some(c),
            None => if names_probability(list.last().0) {
                Some(list.last())
            } else {
                None
            },
        }
    }
}

/// The candidate that is taken: the first one whose name speaks of a
/// probability, or else the first one.
pub open spec fn picked(list: Seq<(Seq<char>, OutputKind)>) -> Option<(Seq<char>, OutputKind)> {
    match first_named(list) {
        Some(c) => Some(c),
        None => if list.len() > 0 {
            Some(list[0])
        } else {
            None
        },
    }
}

/// A probability is taken out of a sequence of maps and out of a tensor whose
/// last dimension has the length one or two, and out of nothing else.
pub proof fn law_type_decides_how_the_output_is_read(ty: OutputType)
    ensures
        kind_of(ty) == Some(OutputKind::ZipMap) <==> ty is SequenceOfMaps,
        kind_of(ty) == Some(OutputKind::Tensor2) <==> (ty matches OutputType::FloatTensor {
            last: Some(n),
        } && n == 2),
        kind_of(ty) == Some(OutputKind::Tensor1) <==> (ty matches OutputType::FloatTensor {
            last: Some(n),
        } && n == 1),
{
}

/// An output that can hold a probability and has the letters `prob` in its name,
/// in capitals or small letters.
pub open spec fn is_named(o: OutputView) -> bool {
    kind_of(o.1) is Some && contains_text(ascii_lower(o.0), "prob"@)
}

/// The output that is taken is the first that can hold a probability and has the
/// letters `prob` in its name; if none has them, the first that can hold one; and
/// none is taken only if none can hold one.
pub proof fn law_output_that_is_taken(outputs: Seq<OutputView>, i: int)
    requires
        0 <= i < outputs.len(),
    ensures
        ({
            let r = picked(candidates(outputs));
            let o = outputs[i];
            &&& is_named(o) && (forall|j: int| 0 <= j < i ==> !is_named(#[trigger] outputs[j]))
                ==> r == Some((o.0, kind_of(o.1).unwrap()))
            &&& (forall|j: int| 0 <= j < outputs.len() ==> !is_named(#[trigger] outputs[j]))
                && kind_of(o.1) is Some && (forall|j: int|
                0 <= j < i ==> kind_of((#[trigger] outputs[j]).1) is None) ==> r == Some(
                (o.0, kind_of(o.1).unwrap()),
            )
            &&& (forall|j: int|
                0 <= j < outputs.len() ==> kind_of((#[trigger] outputs[j]).1) is None) ==> r is None
        }),
{
    let f = |o: OutputView| at_most_one(candidate(o));
    let head = outputs.take(i);
    let o = outputs[i];
    let tail = outputs.skip(i + 1);
    assert(outputs =~= head + seq![o] + tail);
    lemma_gather_append(head + seq![o], tail, f);
    lemma_gather_append(head, seq![o], f);
    lemma_gather_one(o, f);
    let all = candidates(outputs);
    let before = candidates(head);
    if is_named(o) && (forall|j: int| 0 <= j < i ==> !is_named(#[trigger] outputs[j])) {
        assert forall|j: int| 0 <= j < head.len() implies !is_named(#[trigger] head[j]) by {
            assert(head[j] == outputs[j]);
        }
        lemma_none_named(head);
        let upto = before.push((o.0, kind_of(o.1).unwrap()));
        assert(upto.drop_last() =~= before);
        assert(all.take(upto.len() as int) =~= upto);
        lemma_first_named_stays(all, upto.len() as int);
    }
    if forall|j: int| 0 <= j < outputs.len() ==> !is_named(#[trigger] outputs[j]) {
        lemma_none_named(outputs);
    }
    if forall|j: int| 0 <= j < i ==> kind_of((#[trigger] outputs[j]).1) is None {
        assert forall|j: int| 0 <= j < head.len() implies kind_of(
            (#[trigger] head[j]).1,
        ) is None by {
            assert(head[j] == outputs[j]);
        }
        lemma_no_candidates(head);
    }
    if forall|j: int| 0 <= j < outputs.len() ==> kind_of((#[trigger] outputs[j]).1) is None {
        lemma_no_candidates(outputs);
    }
}

proof fn lemma_none_named(outputs: Seq<OutputView>)
    requires
        forall|j: int| 0 <= j < outputs.len() ==> !is_named(#[trigger] outputs[j]),
    ensures
        first_named(candidates(outputs)) is None,
    decreases outputs.len(),
{
    if outputs.len() > 0 {
        let head = outputs.drop_last();
        let o = outputs.last();
        let f = |o: OutputView| at_most_one(candidate(o));
        assert(!is_named(outputs[outputs.len() - 1]));
        assert forall|j: int| 0 <= j < head.len() implies !is_named(#[trigger] head[j]) by {
            assert(head[j] == outputs[j]);
        }
        lemma_none_named(head);
        if kind_of(o.1) is Some {
            let c = (o.0, kind_of(o.1).unwrap());
            assert(candidates(outputs) =~= candidates(head).push(c));
            assert(candidates(head).push(c).drop_last() =~= candidates(head));
        } else {
            assert(candidates(outputs) =~= candidates(head));
        }
    }
}

proof fn lemma_no_candidates(outputs: Seq<OutputView>)
    requires
        forall|j: int| 0 <= j < outputs.len() ==> kind_of((#[trigger] outputs[j]).1) is None,
    ensures
        candidates(outputs).len() == 0,
    decreases outputs.len(),
{
    if outputs.len() > 0 {
        let head = outputs.drop_last();
        assert(kind_of(outputs[outputs.len() - 1].1) is None);
        assert forall|j: int| 0 <= j < head.len() implies kind_of(
            (#[trigger] head[j]).1,
        ) is None by {
            assert(head[j] == outputs[j]);
        }
        lemma_no_candidates(head);
    }
}

proof fn lemma_first_named_stays(list: Seq<(Seq<char>, OutputKind)>, i: int)
    requires
        0 <= i <= list.len(),
    ensures
        first_named(list.take(i)) is Some ==> first_named(list) == first_named(list.take(i)),
    decreases list.len(),
{
    if i == list.len() {
        assert(list.take(i) =~= list);
    } else {
        lemma_first_named_stays(list.drop_last(), i);
        assert(list.drop_last().take(i) =~= list.take(i));
    }
}

fn output_kind(ty: OutputType) -> (r: Option<OutputKind>)
    ensures
        r == kind_of(ty),
{
    match ty {
        OutputType::SequenceOfMaps => Some(OutputKind::ZipMap),
        OutputType::FloatTensor { last: Some(n) } => {
            if n == 2 {
                Some(OutputKind::Tensor2)
            } else if n == 1 {
                Some(OutputKind::Tensor1)
            } else {
                None
            }
        },
        _ => None,
    }
}

/// What the candidates are.
pub open spec fn named(list: Seq<(String, OutputKind)>) -> Seq<(Seq<char>, OutputKind)> {
    list.map_values(|c: (String, OutputKind)| (c.0@, c.1))
}

/// Picks the output that holds the probability, and how to take it out; `None`
/// if no output can hold one.
pub fn pick_output(outputs: &Vec<OutputInfo>) -> (r: Option<(String, OutputKind)>)
    ensures
        (match r {
            Some(c) => Some((c.0@, c.1)),
            None => None,
        }) == picked(candidates(views(outputs@))),
{
    let ghost all = views(outputs@);
    let ghost f = |o: OutputView| at_most_one(candidate(o));
    let mut list: Vec<(String, OutputKind)> = Vec::new();
    assert(named(list@) =~= Seq::empty());
    assert(all.take(0) =~= Seq::empty());
    let mut i: usize = 0;
    while i < outputs.len()
        invariant
            all == views(outputs@),
            f == (|o: OutputView| at_most_one(candidate(o))),
            i <= outputs@.len(),
            named(list@) == gather(all.take(i as int), f),
        decreases outputs@.len() - i,
    {
        let ghost before = list@;
        proof {
            lemma_gather_step(all, f, i as int);
        }
        assert(all[i as int] == outputs@[i as int]@);
        if let Some(kind) = output_kind(outputs[i].ty) {
            list.push((outputs[i].name.clone(), kind));
        }
        assert(named(list@) =~= named(before) + f(all[i as int]));
        i = i + 1;
    }
    assert(all.take(all.len() as int) =~= all);
    let ghost found = named(list@);
    assert(found.take(0) =~= Seq::empty());
    let mut k: usize = 0;
    while k < list.len()
        invariant
            found == named(list@),
            found == candidates(views(outputs@)),
            k <= list@.len(),
            first_named(found.take(k as int)) is None,
        decreases list@.len() - k,
    {
        assert(found.take(k + 1).drop_last() =~= found.take(k as int));
        assert(found.take(k + 1).last() == found[k as int]);
        assert(found[k as int].0 == list@[k as int].0@);
        if contains(to_ascii_lower(list[k].0.as_str()).as_str(), "prob") {
            proof {
                lemma_first_named_stays(found, k + 1);
            }
            return Some((list[k].0.clone(), list[k].1));
        }
        k = k + 1;
    }
    assert(found.take(found.len() as int) =~= found);
    if list.len() > 0 {
        assert(found[0].0 == list@[0].0@);
        Some((list[0].0.clone(), list[0].1))
    } else {
        None
    }
}

/// Where the probability stands in an output.
#[derive(Debug, Clone, Copy, PartialEq, Eq, Structural)]
pub enum Slot {
    /// Under this key of the map.
    Key(i64),
    /// At this place of the tensor.
    Index(usize),
}

/// How long the output for one snapshot is.
pub open spec fn expected_len(kind: OutputKind) -> usize {
    match kind {
        OutputKind::ZipMap => 1,
        OutputKind::Tensor2 => 2,
        OutputKind::Tensor1 => 1,
    }
}

/// Where the probability that the price goes up stands in an output for one
/// snapshot.
pub open spec fn slot_of(kind: OutputKind) -> Slot {
    match kind {
        OutputKind::ZipMap => Slot::Key(1),
        OutputKind::Tensor2 => Slot::Index(1),
        OutputKind::Tensor1 => Slot::Index(0),
    }
}

/// The probability that the price goes up is the last number of a tensor, which
/// has as many numbers as its last dimension is long; in a map it has the key 1.
pub proof fn law_up_is_the_last_column(ty: OutputType)
    requires
        kind_of(ty) is Some,
    ensures
        ({
            let kind = kind_of(ty).unwrap();
            match ty {
                OutputType::FloatTensor { last: Some(n) } => expected_len(kind) == n && (slot_of(
                    kind,
                ) matches Slot::Index(i) && i == n - 1),
                _ => expected_len(kind) == 1 && (slot_of(kind) matches Slot::Key(k) && k == 1),
            }
        }),
{
}

/// Where the probability that the price goes up stands in an output of `len`
/// items. An output of another length than it has for one snapshot is an error,
/// which gives the length that it should have.
pub fn probability_slot(kind: OutputKind, len: usize) -> (r: Result<Slot, usize>)
    ensures
        len != expected_len(kind) ==> r == Err::<Slot, usize>(expected_len(kind)),
        len == expected_len(kind) ==> r == Ok::<Slot, usize>(
            match kind {
                OutputKind::ZipMap => Slot::Key(1),
                OutputKind::Tensor2 => Slot::Index(1),
                OutputKind::Tensor1 => Slot::Index(0),
            },
        ),
        r matches Ok(Slot::Index(i)) ==> i < len,
        r matches Ok(slot) ==> slot == slot_of(kind),
{
    match kind {
        OutputKind::ZipMap => {
            if len == 1 {
                Ok(Slot::Key(1))
            } else {
                Err(1)
            }
        },
        OutputKind::Tensor2 => {
            if len == 2 {
                Ok(Slot::Index(1))
            } else {
                Err(2)
            }
        },
        OutputKind::Tensor1 => {
            if len == 1 {
                Ok(Slot::Index(0))
            } else {
                Err(1)
            }
        },
    }
}

// ── Probabilities ───────────────────────────────────────────────────────────

/// The bits of one.
pub const ONE_BITS: u64 = 0x3ff0_0000_0000_0000;

/// The bits are those of a number from zero to one.
pub open spec fn probability(bits: u64) -> bool {
    match key_of(bits) {
        Some(k) => 0 <= k <= ONE_BITS,
        None => false,
    }
}

/// The bits of the numbers from zero to one: those up to the bits of one, and
/// those of a zero with a minus.
pub proof fn law_probabilities_by_their_bits(bits: u64)
    ensures
        probability(bits) <==> bits <= 0x3ff0_0000_0000_0000 || bits == 0x8000_0000_0000_0000,
{
    if bits < 0x8000_0000_0000_0000 {
        law_bits_order_numbers(bits);
    } else {
        law_bits_order_numbers((bits - 0x8000_0000_0000_0000) as u64);
    }
}

/// Whether the bits are those of a number from zero to one. What is not is no
/// probability, and is refused rather than corrected.
pub fn is_probability(bits: u64) -> (r: bool)
    ensures
        r == probability(bits),
{
    match order_key(bits) {
        Some(k) => 0 <= k && k <= ONE_BITS as i64,
        None => false,
    }
}

// ── Calibration ─────────────────────────────────────────────────────────────

/// A table that corrects the output of a model: `x` holds outputs and `y` the
/// probabilities that go with them.
#[derive(Debug)]
pub struct Calibration<F> {
    pub method: String,
    pub x: Vec<F>,
    pub y: Vec<F>,
    pub raw_min: F,
    pub raw_max: F,
    pub n: usize,
}

/// What is wrong with a calibration table.
#[derive(Debug, Clone, Copy, PartialEq, Eq, Structural)]
pub enum TableError {
    /// It is empty, or its columns are not of the same length.
    Sizes,
    /// Its first column goes down, or holds what is no number.
    Order,
}

/// Each entry is a number and not smaller than the one before it.
pub open spec fn never_falls(keys: Seq<Option<i64>>) -> bool {
    forall|i: int, j: int|
        #![trigger keys[i], keys[j]]
        0 <= i && j == i + 1 && j < keys.len() ==> keys[i] is Some && keys[j] is Some
            && keys[i].unwrap() <= keys[j].unwrap()
}

/// What is wrong with a table whose first column has the order `keys`.
pub open spec fn table_error(keys: Seq<Option<i64>>, y_len: nat) -> Option<TableError> {
    if keys.len() == 0 || keys.len() != y_len {
        Some(TableError::Sizes)
    } else if !never_falls(keys) {
        Some(TableError::Order)
    } else {
        None
    }
}

/// A table is fine exactly if it has entries, as many in one column as in the
/// other, and its first column, where it has more than one entry, holds numbers
/// only and never falls, from any entry to any behind it.
pub proof fn law_fine_tables(keys: Seq<Option<i64>>, y_len: nat)
    ensures
        table_error(keys, y_len) == Some(TableError::Sizes) <==> keys.len() == 0 || y_len
            != keys.len(),
        table_error(keys, y_len) is None <==> {
            &&& keys.len() > 0
            &&& y_len == keys.len()
            &&& forall|i: int, j: int|
                #![trigger keys[i], keys[j]]
                0 <= i < j < keys.len() ==> keys[i] is Some && keys[j] is Some && keys[i].unwrap()
                    <= keys[j].unwrap()
        },
{
    if never_falls(keys) {
        assert forall|i: int, j: int|
            #![trigger keys[i], keys[j]]
            0 <= i < j < keys.len() implies keys[i] is Some && keys[j] is Some && keys[i].unwrap()
            <= keys[j].unwrap() by {
            lemma_never_falls(keys, i, j);
        }
    }
}

proof fn lemma_never_falls(keys: Seq<Option<i64>>, i: int, j: int)
    requires
        never_falls(keys),
        0 <= i < j < keys.len(),
    ensures
        keys[i] is Some,
        keys[j] is Some,
        keys[i].unwrap() <= keys[j].unwrap(),
    decreases j - i,
{
    let k = j - 1;
    assert(keys[k] is Some && keys[j] is Some && keys[k].unwrap() <= keys[j].unwrap());
    if i < k {
        lemma_never_falls(keys, i, k);
    }
}

/// Checks a table whose first column has the order `keys` and whose second has
/// `y_len` entries.
pub fn check_table(keys: &Vec<Option<i64>>, y_len: usize) -> (r: Result<(), TableError>)
    ensures
        r == (match table_error(keys@, y_len as nat) {
            Some(e) => Err(e),
            None => Ok(()),
        }),
{
    if keys.len() == 0 || keys.len() != y_len {
        return Err(TableError::Sizes);
    }
    let n: usize = keys.len();
    let mut i: usize = 0;
    while i + 1 < n
        invariant
            n == keys@.len(),
            n == y_len,
            i < n,
            never_falls(keys@.take(i + 1)),
        decreases n - i,
    {
        let fine: bool = match (keys[i], keys[i + 1]) {
            (Some(a), Some(b)) => a <= b,
            _ => false,
        };
        if !fine {
            assert(!never_falls(keys@)) by {
                let a = keys@[i as int];
                let b = keys@[i + 1];
                assert(!(a is Some && b is Some && a.unwrap() <= b.unwrap()));
            }
            return Err(TableError::Order);
        }
        proof {
            let head = keys@.take(i + 1);
            let more = keys@.take(i + 2);
            assert forall|a: int, b: int|
                #![trigger more[a], more[b]]
                0 <= a && b == a + 1 && b < more.len() implies more[a] is Some && more[b] is Some
                && more[a].unwrap() <= more[b].unwrap() by {
                if b < head.len() {
                    assert(more[a] == head[a] && more[b] == head[b]);
                }
            }
        }
        i = i + 1;
    }
    assert(keys@.take(n as int) =~= keys@);
    Ok(())
}

/// Checks the second column of a table, given by the bits of its numbers: all of
/// them must be probabilities, so that what is read from the table is one. The
/// error is the place of the first that is none.
pub fn check_values(y: &Vec<u64>) -> (r: Result<(), usize>)
    ensures
        r is Ok <==> forall|i: int| 0 <= i < y@.len() ==> probability(#[trigger] y@[i]),
        r matches Err(i) ==> i < y@.len() && !probability(y@[i as int]) && forall|j: int|
            0 <= j < i ==> probability(#[trigger] y@[j]),
{
    let mut i: usize = 0;
    while i < y.len()
        invariant
            i <= y@.len(),
            forall|j: int| 0 <= j < i ==> probability(#[trigger] y@[j]),
        decreases y@.len() - i,
    {
        if !is_probability(y[i]) {
            return Err(i);
        }
        i = i + 1;
    }
    Ok(())
}

/// The part of a table that applies to an output.
#[derive(Debug, Clone, Copy, PartialEq, Eq, Structural)]
pub enum Segment {
    /// The entry at this place.
    At(usize),
    /// Between the entries at these places, on the line that joins them.
    Between(usize, usize),
}

/// The column never falls.
pub open spec fn rising(x: Seq<i64>) -> bool {
    forall|i: int, j: int| 0 <= i <= j < x.len() ==> #[trigger] x[i] <= #[trigger] x[j]
}

/// The part of the table that applies to `raw`: below the first entry the first
/// one, above the last entry the last one, and else the two entries that `raw`
/// lies between.
pub open spec fn applies(s: Segment, raw: i64, x: Seq<i64>) -> bool {
    if x.len() == 1 || raw <= x[0] {
        s == Segment::At(0)
    } else if raw >= x.last() {
        s == Segment::At((x.len() - 1) as usize)
    } else {
        s matches Segment::Between(lo, hi) && hi == lo + 1 && hi < x.len() && x[lo as int] <= raw
            < x[hi as int]
    }
}

/// Only one part of a table applies to an output, and the two entries that an
/// output lies between are not the same: the line that joins them has a slope.
pub proof fn law_one_part_applies(a: Segment, b: Segment, raw: i64, x: Seq<i64>)
    requires
        x.len() > 0,
        rising(x),
        applies(a, raw, x),
        applies(b, raw, x),
    ensures
        a == b,
        a matches Segment::Between(lo, hi) ==> x[lo as int] < x[hi as int],
{
    if let Segment::Between(lo, hi) = a {
        if let Segment::Between(lo2, hi2) = b {
            if lo < lo2 {
                assert(x[hi as int] <= x[lo2 as int]);
            }
            if lo2 < lo {
                assert(x[hi2 as int] <= x[lo as int]);
            }
        }
    }
}

/// What lies between two entries is read between them: the one is not above it,
/// the other is, and no entry stands between the two. What does not is read at
/// the first entry or at the last, whichever is nearer to it.
pub proof fn law_part_holds_the_output(s: Segment, raw: i64, x: Seq<i64>)
    requires
        x.len() > 0,
        x.len() <= usize::MAX,
        rising(x),
        applies(s, raw, x),
    ensures
        match s {
            Segment::At(k) => {
                &&& x.len() == 1 ==> k == 0
                &&& x.len() > 1 ==> (k == 0 && raw <= x[0]) || (k == x.len() - 1 && raw >= x[x.len()
                    - 1])
                &&& raw < x[0] ==> k == 0
                &&& raw > x[x.len() - 1] ==> k == x.len() - 1
            },
            Segment::Between(a, b) => {
                &&& b == a + 1 && b < x.len()
                &&& x[0] < raw < x[x.len() - 1]
                &&& x[a as int] <= raw < x[b as int]
            },
        },
{
}

/// Finds the part of the table that applies to `raw`; `x` is the first column,
/// by its order.
pub fn segment(raw: i64, x: &Vec<i64>) -> (r: Segment)
    requires
        x@.len() > 0,
        rising(x@),
    ensures
        applies(r, raw, x@),
{
    let n: usize = x.len();
    if n == 1 || raw <= x[0] {
        return Segment::At(0);
    }
    if raw >= x[n - 1] {
        return Segment::At(n - 1);
    }
    let mut lo: usize = 0;
    let mut hi: usize = n - 1;
    while hi - lo > 1
        invariant
            n == x@.len(),
            lo < hi < n,
            x@[lo as int] <= raw < x@[hi as int],
        decreases hi - lo,
    {
        let mid: usize = lo + (hi - lo) / 2;
        if raw >= x[mid] {
            lo = mid;
        } else {
            hi = mid;
        }
    }
    Segment::Between(lo, hi)
}

} // verus!
