//! The key-binding table: which action each chord is bound to.
//!
//! A table is built once from a list of entries. An entry binds one chord to
//! one action, or maps a template over a list of workspace tags and so binds
//! one chord for each tag. Where two bindings name the same chord, the later
//! one stands.

use std::collections::HashMap;
use vstd::prelude::*;
use crate::action::{Action, ActionModel, TagOperation};
use crate::chord::{
    chord_of, digest_of, fill_slot, parse_pattern, ChordModel, ChordPattern, KeyChord, KeyShape,
};
use crate::tags::TagList;

verus! {

broadcast use vstd::std_specs::hash::group_hash_axioms;

/// A binding as a value: a chord and the action bound to it.
pub struct BindingModel {
    pub chord: ChordModel,
    pub action: ActionModel,
}

/// The table that results from making `bindings` one after the other.
pub open spec fn bind_all(bindings: Seq<BindingModel>) -> Map<ChordModel, ActionModel>
    decreases bindings.len(),
{
    if bindings.len() == 0 {
        Map::empty()
    } else {
        bind_all(bindings.drop_last()).insert(bindings.last().chord, bindings.last().action)
    }
}

/// Whether no two of `bindings` name the same chord.
pub open spec fn distinct_chords(bindings: Seq<BindingModel>) -> bool {
    forall|i: int, j: int|
        0 <= i < j < bindings.len() ==> (#[trigger] bindings[i]).chord != (
        #[trigger] bindings[j]).chord
}

/// One entry of the list that a table is built from.
#[derive(Debug, PartialEq, Eq)]
pub enum Entry {
    /// Binds the chord that `pattern` denotes to `action`.
    Bind { pattern: String, action: Action },
    /// Binds, for each of `tags`, the chord that `pattern` denotes with the tag
    /// in its slot to `operation` on that tag.
    MapOver { pattern: String, operation: TagOperation, tags: TagList },
}

/// An entry as a value.
pub enum EntryModel {
    Bind { pattern: Seq<char>, action: ActionModel },
    MapOver { pattern: Seq<char>, operation: TagOperation, tags: Seq<Seq<char>> },
}

impl View for Entry {
    type V = EntryModel;

    open spec fn view(&self) -> EntryModel {
        match self {
            Entry::Bind { pattern, action } => EntryModel::Bind {
                pattern: pattern@,
                action: action@,
            },
            Entry::MapOver { pattern, operation, tags } => EntryModel::MapOver {
                pattern: pattern@,
                operation: *operation,
                tags: tags@,
            },
        }
    }
}

impl Entry {
    /// The pattern of the entry.
    pub fn pattern(&self) -> (pattern: &str)
        ensures
            pattern@ == self@.pattern(),
    {
        match self {
            Entry::Bind { pattern, .. } => pattern.as_str(),
            Entry::MapOver { pattern, .. } => pattern.as_str(),
        }
    }
}

/// The entries that `entries` hold, as values.
pub open spec fn models(entries: Seq<Entry>) -> Seq<EntryModel> {
    Seq::new(entries.len(), |i: int| entries[i]@)
}

/// What can be wrong with an entry.
#[derive(Clone, Copy, Debug, PartialEq, Eq, Structural)]
pub enum Defect {
    /// The pattern, or the pattern with one of the tags in its slot, denotes no chord.
    MalformedChord,
    /// The pattern holds a slot and there are no tags, or there are tags and it holds none.
    TemplateArity,
}

impl EntryModel {
    /// The pattern of the entry.
    pub open spec fn pattern(self) -> Seq<char> {
        match self {
            EntryModel::Bind { pattern, .. } => pattern,
            EntryModel::MapOver { pattern, .. } => pattern,
        }
    }

    /// What is wrong with the entry, if anything. A pattern that cannot be read
    /// comes before a slot out of place, and that before a tag that fits no key.
    pub open spec fn defect(self) -> Option<Defect> {
        match parse_pattern(self.pattern()) {
            None => Some(Defect::MalformedChord),
            Some(shape) => match self {
                EntryModel::Bind { .. } => if shape.key is Slot {
                    Some(Defect::TemplateArity)
                } else {
                    None
                },
                EntryModel::MapOver { tags, .. } => if !(shape.key is Slot) {
                    Some(Defect::TemplateArity)
                } else if exists|k: int| 0 <= k < tags.len() && fill_slot(shape, #[trigger] tags[k])
                    is None {
                    Some(Defect::MalformedChord)
                } else {
                    None
                },
            },
        }
    }

    /// The bindings that the entry makes, in order: one, or one for each tag.
    pub open spec fn bindings(self) -> Seq<BindingModel> {
        let shape = parse_pattern(self.pattern())->0;
        match self {
            EntryModel::Bind { action, .. } => seq![
                BindingModel { chord: chord_of(shape)->0, action },
            ],
            EntryModel::MapOver { operation, tags, .. } => Seq::new(
                tags.len(),
                |k: int|
                    BindingModel {
                        chord: fill_slot(shape, tags[k])->0,
                        action: ActionModel::RunInternal(operation.on(tags[k])),
                    },
            ),
        }
    }
}

/// The bindings that `entries` make, in order.
pub open spec fn expand(entries: Seq<EntryModel>) -> Seq<BindingModel>
    decreases entries.len(),
{
    if entries.len() == 0 {
        Seq::empty()
    } else {
        expand(entries.drop_last()) + entries.last().bindings()
    }
}

/// Whether nothing is wrong with any of `entries`.
pub open spec fn faultless(entries: Seq<EntryModel>) -> bool {
    forall|i: int| 0 <= i < entries.len() ==> (#[trigger] entries[i]).defect() is None
}

/// Whether `entries[at]` is the first entry with something wrong, and `defect` is what.
pub open spec fn first_fault(entries: Seq<EntryModel>, at: int, defect: Defect) -> bool {
    &&& 0 <= at < entries.len()
    &&& entries[at].defect() == Some(defect)
    &&& forall|i: int| 0 <= i < at ==> (#[trigger] entries[i]).defect() is None
}

/// Why a table could not be built: what is wrong, and with which entry.
#[derive(Clone, Copy, Debug, PartialEq, Eq, Structural)]
pub enum BuildError {
    MalformedChord { entry: usize },
    TemplateArity { entry: usize },
}

/// What is said of a defect in the entry with the pattern `pattern`.
pub open spec fn complaint(defect: Defect, pattern: Seq<char>) -> Seq<char> {
    match defect {
        Defect::MalformedChord => "malformed chord in the binding "@ + pattern,
        Defect::TemplateArity => "slot and tags do not go together in the binding "@ + pattern,
    }
}

impl BuildError {
    /// The place of the entry at fault.
    pub open spec fn place(self) -> int {
        match self {
            BuildError::MalformedChord { entry } => entry as int,
            BuildError::TemplateArity { entry } => entry as int,
        }
    }

    /// What is wrong with that entry.
    pub open spec fn defect(self) -> Defect {
        match self {
            BuildError::MalformedChord { .. } => Defect::MalformedChord,
            BuildError::TemplateArity { .. } => Defect::TemplateArity,
        }
    }

    /// The place of the entry at fault.
    pub fn entry(&self) -> (entry: usize)
        ensures
            entry == self.place(),
    {
        match self {
            BuildError::MalformedChord { entry } => *entry,
            BuildError::TemplateArity { entry } => *entry,
        }
    }

    /// What is wrong, in words that name the binding at fault by its pattern.
    /// `entries` is the list that the build was given; where it has no entry
    /// at the place of the fault, the words name no pattern.
    pub fn message(&self, entries: &Vec<Entry>) -> (text: String)
        ensures
            text@ == complaint(
                self.defect(),
                if self.place() < entries@.len() {
                    entries@[self.place()]@.pattern()
                } else {
                    Seq::empty()
                },
            ),
    {
        let mut text = match self {
            BuildError::MalformedChord { .. } => String::from_str("malformed chord in the binding "),
            BuildError::TemplateArity { .. } => String::from_str(
                "slot and tags do not go together in the binding ",
            ),
        };
        let ghost head = text@;
        let at = self.entry();
        if at < entries.len() {
            text.append(entries[at].pattern());
        } else {
            assert(head + Seq::<char>::empty() =~= head);
        }
        text
    }
}

#[derive(Debug, PartialEq, Eq)]
struct Binding {
    chord: KeyChord,
    action: Action,
}

/// The bindings that `held` holds, as values.
spec fn listed(held: Seq<Binding>) -> Seq<BindingModel> {
    Seq::new(held.len(), |i: int| BindingModel { chord: held[i].chord@, action: held[i].action@ })
}

/// The first of the places in `bucket` at which `chord` is held, if there is one.
fn scan(held: &Vec<Binding>, bucket: &Vec<usize>, chord: &KeyChord) -> (place: Option<usize>)
    requires
        forall|j: int| 0 <= j < bucket@.len() ==> (#[trigger] bucket@[j]) < held@.len(),
    ensures
        match place {
            Some(i) => i < held@.len() && held@[i as int].chord@ == chord@,
            None => forall|j: int|
                0 <= j < bucket@.len() ==> held@[(#[trigger] bucket@[j]) as int].chord@ != chord@,
        },
{
    let mut k: usize = 0;
    while k < bucket.len()
        invariant
            k <= bucket.len(),
            forall|j: int| 0 <= j < bucket@.len() ==> (#[trigger] bucket@[j]) < held@.len(),
            forall|j: int| 0 <= j < k ==> held@[(#[trigger] bucket@[j]) as int].chord@ != chord@,
        decreases bucket.len() - k,
    {
        let i = bucket[k];
        if held[i].chord.same_as(chord) {
            return Some(i);
        }
        k += 1;
    }
    None
}

/// Whether the place `i` is in `bucket`.
spec fn leads_to(bucket: Seq<usize>, i: int) -> bool {
    exists|at: int| 0 <= at < bucket.len() && #[trigger] bucket[at] == i
}

/// Whether `index` leads from the digest of each chord held to the place where
/// it is held, and to no place that does not exist.
#[verifier::opaque]
spec fn indexed(held: Seq<Binding>, index: Map<u64, Vec<usize>>) -> bool {
    &&& forall|i: int|
        0 <= i < held.len() ==> {
            &&& index.contains_key(digest_of((#[trigger] held[i]).chord@))
            &&& leads_to(index[digest_of(held[i].chord@)]@, i)
        }
    &&& forall|h: u64, j: int|
        index.contains_key(h) && 0 <= j < index[h]@.len() ==> (#[trigger] index[h]@[j]) < held.len()
}

/// An index leads from the digest of a chord held to a bucket with its place in it.
proof fn lemma_held_is_indexed(held: Seq<Binding>, index: Map<u64, Vec<usize>>, i: int)
    requires
        indexed(held, index),
        0 <= i < held.len(),
    ensures
        index.contains_key(digest_of(held[i].chord@)),
        leads_to(index[digest_of(held[i].chord@)]@, i),
{
    reveal(indexed);
}

/// Every place in a bucket of an index exists.
proof fn lemma_bucket_is_in_range(held: Seq<Binding>, index: Map<u64, Vec<usize>>, h: u64)
    requires
        indexed(held, index),
        index.contains_key(h),
    ensures
        forall|j: int| 0 <= j < index[h]@.len() ==> (#[trigger] index[h]@[j]) < held.len(),
{
    reveal(indexed);
}

/// Where an index has no bucket for the digest of a chord, the chord is not held.
proof fn lemma_no_bucket_no_chord(held: Seq<Binding>, index: Map<u64, Vec<usize>>, chord: ChordModel)
    requires
        indexed(held, index),
        !index.contains_key(digest_of(chord)),
    ensures
        forall|j: int| 0 <= j < listed(held).len() ==> (#[trigger] listed(held)[j]).chord != chord,
{
    assert forall|j: int| 0 <= j < listed(held).len() implies (#[trigger] listed(held)[j]).chord
        != chord by {
        lemma_held_is_indexed(held, index, j);
    }
}

/// Where a chord is at none of the places in the bucket for its digest, it is not held.
proof fn lemma_not_in_bucket_not_held(
    held: Seq<Binding>,
    index: Map<u64, Vec<usize>>,
    chord: ChordModel,
)
    requires
        indexed(held, index),
        index.contains_key(digest_of(chord)),
        forall|j: int|
            0 <= j < index[digest_of(chord)]@.len() ==> held[(
            #[trigger] index[digest_of(chord)]@[j]) as int].chord@ != chord,
    ensures
        forall|j: int| 0 <= j < listed(held).len() ==> (#[trigger] listed(held)[j]).chord != chord,
{
    let bucket = index[digest_of(chord)]@;
    assert forall|j: int| 0 <= j < listed(held).len() implies (#[trigger] listed(held)[j]).chord
        != chord by {
        if listed(held)[j].chord == chord {
            lemma_held_is_indexed(held, index, j);
            let at = choose|at: int| 0 <= at < bucket.len() && #[trigger] bucket[at] == j;
            assert(held[bucket[at] as int].chord@ != chord);
        }
    }
}

/// The table of key bindings: each chord in it is bound to exactly one action.
///
/// The bindings are held in a list, and a hash map leads from the digest of a
/// chord to the places of the chords with that digest, so that a lookup
/// compares the chord it is given with few of those held.
#[derive(Debug, PartialEq, Eq)]
pub struct KeyBindingTable {
    bindings: Vec<Binding>,
    index: HashMap<u64, Vec<usize>>,
}

impl View for KeyBindingTable {
    type V = Map<ChordModel, ActionModel>;

    closed spec fn view(&self) -> Map<ChordModel, ActionModel> {
        bind_all(self.listing())
    }
}

impl KeyBindingTable {
    /// The bindings of the table, in the order in which `binding` hands them out.
    pub closed spec fn listing(&self) -> Seq<BindingModel> {
        listed(self.bindings@)
    }

    /// No chord is held twice, and every chord held is found by its digest.
    #[verifier::type_invariant]
    pub closed spec fn sound(self) -> bool {
        &&& distinct_chords(self.listing())
        &&& indexed(self.bindings@, self.index@)
    }

    fn empty() -> (table: KeyBindingTable)
        ensures
            table@ == Map::<ChordModel, ActionModel>::empty(),
    {
        let bindings: Vec<Binding> = Vec::new();
        let index: HashMap<u64, Vec<usize>> = HashMap::new();
        proof {
            reveal(indexed);
            assert(listed(bindings@) =~= Seq::empty());
        }
        KeyBindingTable { bindings, index }
    }

    /// The place at which `chord` is held, if it is.
    fn find(&self, chord: &KeyChord) -> (place: Option<usize>)
        ensures
            match place {
                Some(i) => i < self.listing().len() && self.listing()[i as int].chord == chord@,
                None => forall|j: int|
                    0 <= j < self.listing().len() ==> (#[trigger] self.listing()[j]).chord != chord@,
            },
    {
        proof {
            use_type_invariant(self);
        }
        let h = chord.digest();
        match self.index.get(&h) {
            None => {
                proof {
                    lemma_no_bucket_no_chord(self.bindings@, self.index@, chord@);
                }
                None
            },
            Some(bucket) => {
                proof {
                    lemma_bucket_is_in_range(self.bindings@, self.index@, h);
                }
                let place = scan(&self.bindings, bucket, chord);
                proof {
                    if place is None {
                        lemma_not_in_bucket_not_held(self.bindings@, self.index@, chord@);
                    }
                }
                place
            },
        }
    }

    /// The table with `chord` bound to `action`, in place of what it was bound to before.
    fn with(self, chord: KeyChord, action: Action) -> (table: KeyBindingTable)
        ensures
            table@ == self@.insert(chord@, action@),
    {
        proof {
            use_type_invariant(&self);
        }
        let ghost before = self.listing();
        let ghost held = self.bindings@;
        let ghost made = BindingModel { chord: chord@, action: action@ };
        let place = self.find(&chord);
        let mut bindings = self.bindings;
        let mut index = self.index;
        match place {
            Some(i) => {
                bindings.set(i, Binding { chord, action });
                proof {
                    reveal(indexed);
                    assert(listed(bindings@) =~= before.update(i as int, made));
                    lemma_rebind(before, i as int, made.action);
                    assert forall|k: int| 0 <= k < bindings@.len() implies {
                        &&& index@.contains_key(digest_of((#[trigger] bindings@[k]).chord@))
                        &&& leads_to(index@[digest_of(bindings@[k].chord@)]@, k)
                    } by {
                        assert(before[k].chord == listed(bindings@)[k].chord);
                        assert(held[k].chord@ == bindings@[k].chord@);
                    }
                }
                KeyBindingTable { bindings, index }
            },
            None => {
                let h = chord.digest();
                let n = bindings.len();
                let ghost old_index = index@;
                let mut bucket = match index.remove(&h) {
                    Some(b) => b,
                    None => Vec::new(),
                };
                let ghost old_bucket = bucket@;
                bucket.push(n);
                index.insert(h, bucket);
                bindings.push(Binding { chord, action });
                proof {
                    reveal(indexed);
                    assert(listed(bindings@) =~= before.push(made));
                    assert(before.push(made).drop_last() =~= before);
                    assert forall|a: int, b: int| 0 <= a < b < listed(bindings@).len() implies (
                    #[trigger] listed(bindings@)[a]).chord != (#[trigger] listed(bindings@)[b]).chord by {
                        if b < n {
                            assert(before[a].chord != before[b].chord);
                        } else {
                            assert(before[a].chord != made.chord);
                        }
                    }
                    assert forall|k: int| 0 <= k < bindings@.len() implies {
                        &&& index@.contains_key(digest_of((#[trigger] bindings@[k]).chord@))
                        &&& leads_to(index@[digest_of(bindings@[k].chord@)]@, k)
                    } by {
                        if k < n {
                            assert(bindings@[k] == held[k]);
                            let hk = digest_of(held[k].chord@);
                            assert(old_index.contains_key(hk) && leads_to(old_index[hk]@, k));
                            if hk == h {
                                let at = choose|at: int|
                                    0 <= at < old_bucket.len() && #[trigger] old_bucket[at] == k;
                                assert(index@[h]@[at] == k);
                            }
                        } else {
                            assert(index@[h]@[old_bucket.len() as int] == n);
                        }
                    }
                    assert forall|g: u64, j: int|
                        index@.contains_key(g) && 0 <= j < index@[g]@.len() implies (
                    #[trigger] index@[g]@[j]) < bindings@.len() by {
                        if g == h {
                            if j < old_bucket.len() {
                                assert(old_index.contains_key(h));
                                assert(old_index[h]@[j] < held.len());
                            }
                        } else {
                            assert(old_index.contains_key(g));
                            assert(old_index[g]@[j] < held.len());
                        }
                    }
                }
                KeyBindingTable { bindings, index }
            },
        }
    }

    /// Builds the table that `entries` describe.
    ///
    /// The bindings are made in the order of the entries, and within a mapped
    /// entry in the order of its tags. The table is built exactly when nothing
    /// is wrong with any entry; otherwise the error names the first entry at
    /// fault and says what is wrong with it.
    pub fn build(entries: &Vec<Entry>) -> (table: Result<KeyBindingTable, BuildError>)
        ensures
            match table {
                Ok(t) => faultless(models(entries@)) && t@ == bind_all(expand(models(entries@))),
                Err(e) => first_fault(models(entries@), e.place(), e.defect()),
            },
    {
        let ghost all = models(entries@);
        let mut table = KeyBindingTable::empty();
        let mut i: usize = 0;
        while i < entries.len()
            invariant
                i <= entries.len(),
                all == models(entries@),
                forall|j: int| 0 <= j < i ==> (#[trigger] all[j]).defect() is None,
                table@ == bind_all(expand(all.take(i as int))),
            decreases entries.len() - i,
        {
            let ghost entry = all[i as int];
            let ghost made = expand(all.take(i as int));
            assert(entry == entries@[i as int]@);
            match &entries[i] {
                Entry::Bind { pattern, action } => {
                    let parsed = match ChordPattern::parse(pattern.as_str()) {
                        Some(p) => p,
                        None => {
                            return Err(BuildError::MalformedChord { entry: i });
                        },
                    };
                    let chord = match parsed.chord() {
                        Some(c) => c,
                        None => {
                            return Err(BuildError::TemplateArity { entry: i });
                        },
                    };
                    table = table.with(chord, action.clone());
                    proof {
                        let one = entry.bindings();
                        assert(made + one =~= made.push(one[0]));
                        assert(made.push(one[0]).drop_last() =~= made);
                    }
                },
                Entry::MapOver { pattern, operation, tags } => {
                    let parsed = match ChordPattern::parse(pattern.as_str()) {
                        Some(p) => p,
                        None => {
                            return Err(BuildError::MalformedChord { entry: i });
                        },
                    };
                    if !parsed.has_slot() {
                        return Err(BuildError::TemplateArity { entry: i });
                    }
                    let ghost shape = parsed@;
                    let ghost each = entry.bindings();
                    let mut k: usize = 0;
                    assert(made + each.take(0) =~= made);
                    while k < tags.len()
                        invariant
                            k <= tags@.len(),
                            i < entries.len(),
                            all == models(entries@),
                            forall|j: int| 0 <= j < i ==> (#[trigger] all[j]).defect() is None,
                            entry == entries@[i as int]@,
                            entries@[i as int] matches Entry::MapOver { tags: t, operation: o, .. }
                                && t == tags && o == operation,
                            parse_pattern(entry.pattern()) == Some(shape),
                            shape == parsed@,
                            shape.key is Slot,
                            each == entry.bindings(),
                            forall|j: int|
                                0 <= j < k ==> fill_slot(shape, #[trigger] tags@[j]) is Some,
                            table@ == bind_all(made + each.take(k as int)),
                        decreases tags@.len() - k,
                    {
                        let tag = match tags.get(k) {
                            Some(t) => t,
                            None => {
                                return Err(BuildError::MalformedChord { entry: i });
                            },
                        };
                        let chord = match parsed.fill(tag) {
                            Some(c) => c,
                            None => {
                                return Err(BuildError::MalformedChord { entry: i });
                            },
                        };
                        table = table.with(chord, Action::RunInternal(operation.apply(tag)));
                        proof {
                            let sofar = made + each.take(k as int);
                            assert(made + each.take(k + 1) =~= sofar.push(each[k as int]));
                            assert(sofar.push(each[k as int]).drop_last() =~= sofar);
                        }
                        k += 1;
                    }
                    assert(each.take(k as int) =~= each);
                },
            }
            proof {
                assert(all.take(i + 1).drop_last() =~= all.take(i as int));
                assert(all.take(i + 1).last() == entry);
            }
            i += 1;
        }
        assert(all.take(i as int) =~= all);
        Ok(table)
    }

    /// The action that `chord` is bound to: `None` exactly when it is unbound.
    pub fn lookup(&self, chord: &KeyChord) -> (action: Option<&Action>)
        ensures
            match action {
                Some(a) => self@.contains_key(chord@) && a@ == self@[chord@],
                None => !self@.contains_key(chord@),
            },
    {
        proof {
            use_type_invariant(self);
            lemma_bound_chords(self.listing(), chord@);
        }
        match self.find(chord) {
            Some(i) => {
                proof {
                    lemma_last_binding_stands(self.listing(), i as int);
                }
                Some(&self.bindings[i].action)
            },
            None => None,
        }
    }

    /// How many chords are bound.
    pub fn len(&self) -> (n: usize)
        ensures
            n == self@.dom().len(),
            n == self.listing().len(),
            self@.dom().finite(),
    {
        proof {
            use_type_invariant(self);
            lemma_count_of_distinct(self.listing());
        }
        self.bindings.len()
    }

    /// Whether no chord is bound.
    pub fn is_empty(&self) -> (none: bool)
        ensures
            none == (self@.dom().len() == 0),
            self@.dom().finite(),
    {
        self.len() == 0
    }

    /// The binding at place `i` of the listing: `None` exactly when there is no such place.
    pub fn binding(&self, i: usize) -> (binding: Option<(&KeyChord, &Action)>)
        ensures
            match binding {
                Some((chord, action)) => {
                    &&& i < self.listing().len()
                    &&& self.listing()[i as int] == (BindingModel {
                        chord: chord@,
                        action: action@,
                    })
                    &&& self@.contains_key(chord@)
                    &&& self@[chord@] == action@
                },
                None => i >= self.listing().len(),
            },
    {
        if i < self.bindings.len() {
            proof {
                use_type_invariant(self);
                lemma_last_binding_stands(self.listing(), i as int);
            }
            Some((&self.bindings[i].chord, &self.bindings[i].action))
        } else {
            None
        }
    }
}

/// A table binds what its listing says, and its listing names no chord twice:
/// going through the listing meets each binding of the table exactly once.
pub proof fn lemma_listing_is_the_table(table: KeyBindingTable)
    requires
        table.sound(),
    ensures
        table@ == bind_all(table.listing()),
        distinct_chords(table.listing()),
{
}

/// A chord is bound in a table exactly when one of the bindings made names it.
pub proof fn lemma_bound_chords(bindings: Seq<BindingModel>, chord: ChordModel)
    ensures
        bind_all(bindings).contains_key(chord) <==> exists|i: int|
            0 <= i < bindings.len() && (#[trigger] bindings[i]).chord == chord,
    decreases bindings.len(),
{
    if bindings.len() > 0 {
        let earlier = bindings.drop_last();
        lemma_bound_chords(earlier, chord);
        if bind_all(bindings).contains_key(chord) {
            if bindings.last().chord == chord {
                assert(bindings[bindings.len() - 1].chord == chord);
            } else {
                let i = choose|i: int| 0 <= i < earlier.len() && (#[trigger] earlier[i]).chord == chord;
                assert(bindings[i].chord == chord);
            }
        }
        if exists|i: int| 0 <= i < bindings.len() && (#[trigger] bindings[i]).chord == chord {
            let i = choose|i: int| 0 <= i < bindings.len() && (#[trigger] bindings[i]).chord == chord;
            if i < bindings.len() - 1 {
                assert(earlier[i].chord == chord);
            }
        }
    }
}

/// A chord is bound to the action of the last binding that names it.
pub proof fn lemma_last_binding_stands(bindings: Seq<BindingModel>, i: int)
    requires
        0 <= i < bindings.len(),
        forall|j: int| i < j < bindings.len() ==> (#[trigger] bindings[j]).chord != bindings[i].chord,
    ensures
        bind_all(bindings).contains_key(bindings[i].chord),
        bind_all(bindings)[bindings[i].chord] == bindings[i].action,
    decreases bindings.len(),
{
    if i < bindings.len() - 1 {
        let earlier = bindings.drop_last();
        assert(earlier[i] == bindings[i]);
        assert forall|j: int| i < j < earlier.len() implies (#[trigger] earlier[j]).chord
            != earlier[i].chord by {
            assert(earlier[j] == bindings[j]);
        }
        lemma_last_binding_stands(earlier, i);
        assert(bindings[bindings.len() - 1].chord != bindings[i].chord);
    }
}

/// Binding anew a chord that a list without repeats names already changes that binding's action.
proof fn lemma_rebind(bindings: Seq<BindingModel>, i: int, action: ActionModel)
    requires
        0 <= i < bindings.len(),
        distinct_chords(bindings),
    ensures
        distinct_chords(bindings.update(i, BindingModel { chord: bindings[i].chord, action })),
        bind_all(bindings.update(i, BindingModel { chord: bindings[i].chord, action })) == bind_all(
            bindings,
        ).insert(bindings[i].chord, action),
    decreases bindings.len(),
{
    let made = BindingModel { chord: bindings[i].chord, action };
    let after = bindings.update(i, made);
    let earlier = bindings.drop_last();
    assert forall|a: int, b: int| 0 <= a < b < after.len() implies (#[trigger] after[a]).chord != (
    #[trigger] after[b]).chord by {
        assert(bindings[a].chord != bindings[b].chord);
    }
    if i == bindings.len() - 1 {
        assert(after.drop_last() =~= earlier);
        assert(bind_all(after) =~= bind_all(bindings).insert(made.chord, action));
    } else {
        assert(after.drop_last() =~= earlier.update(i, made));
        assert(earlier[i] == bindings[i]);
        assert forall|a: int, b: int| 0 <= a < b < earlier.len() implies (#[trigger] earlier[a]).chord
            != (#[trigger] earlier[b]).chord by {
            assert(bindings[a].chord != bindings[b].chord);
        }
        lemma_rebind(earlier, i, action);
        assert(bindings[i].chord != bindings[bindings.len() - 1].chord);
        assert(bind_all(after) =~= bind_all(bindings).insert(made.chord, action));
    }
}

/// A list of bindings without repeats binds as many chords as it has bindings.
pub proof fn lemma_count_of_distinct(bindings: Seq<BindingModel>)
    requires
        distinct_chords(bindings),
    ensures
        bind_all(bindings).dom().finite(),
        bind_all(bindings).dom().len() == bindings.len(),
    decreases bindings.len(),
{
    if bindings.len() > 0 {
        let earlier = bindings.drop_last();
        assert forall|a: int, b: int| 0 <= a < b < earlier.len() implies (#[trigger] earlier[a]).chord
            != (#[trigger] earlier[b]).chord by {
            assert(bindings[a].chord != bindings[b].chord);
        }
        lemma_count_of_distinct(earlier);
        lemma_bound_chords(earlier, bindings.last().chord);
        if bind_all(earlier).contains_key(bindings.last().chord) {
            let i = choose|i: int|
                0 <= i < earlier.len() && (#[trigger] earlier[i]).chord == bindings.last().chord;
            assert(bindings[i].chord != bindings[bindings.len() - 1].chord);
        }
        assert(bind_all(bindings).dom() =~= bind_all(earlier).dom().insert(bindings.last().chord));
    }
}

/// A tag can be read back from the key that it makes in a slot.
pub proof fn lemma_fill_is_injective(
    prefix: Seq<char>,
    suffix: Seq<char>,
    a: Seq<char>,
    b: Seq<char>,
)
    requires
        prefix + a + suffix == prefix + b + suffix,
    ensures
        a == b,
{
    let left = prefix + a + suffix;
    let right = prefix + b + suffix;
    assert(left.len() == prefix.len() + a.len() + suffix.len());
    assert(right.len() == prefix.len() + b.len() + suffix.len());
    assert forall|i: int| 0 <= i < a.len() implies a[i] == b[i] by {
        assert(left[prefix.len() + i] == a[i]);
        assert(right[prefix.len() + i] == b[i]);
    }
    assert(a =~= b);
}

/// A template mapped over tags of which none occurs twice makes exactly one
/// binding for each tag: the chord is that of the template with the tag in its
/// slot, the action is the operation on that very tag, and no two of these
/// chords are the same.
pub proof fn lemma_map_over_binds_each_tag_once(
    pattern: Seq<char>,
    operation: TagOperation,
    tags: Seq<Seq<char>>,
)
    requires
        tags.no_duplicates(),
        (EntryModel::MapOver { pattern, operation, tags }).defect() is None,
    ensures
        ({
            let made = (EntryModel::MapOver { pattern, operation, tags }).bindings();
            let shape = parse_pattern(pattern)->0;
            &&& made.len() == tags.len()
            &&& distinct_chords(made)
            &&& forall|k: int|
                0 <= k < tags.len() ==> {
                    &&& (#[trigger] made[k]).chord.mods == shape.mods
                    &&& made[k].chord.key == shape.key->prefix + tags[k] + shape.key->suffix
                    &&& made[k].action == ActionModel::RunInternal(operation.on(tags[k]))
                }
        }),
{
    let made = (EntryModel::MapOver { pattern, operation, tags }).bindings();
    let shape = parse_pattern(pattern)->0;
    assert forall|k: int| 0 <= k < tags.len() implies fill_slot(shape, #[trigger] tags[k]) is Some by {}
    assert forall|i: int, j: int| 0 <= i < j < made.len() implies (#[trigger] made[i]).chord != (
    #[trigger] made[j]).chord by {
        assert(fill_slot(shape, tags[i]) is Some);
        assert(fill_slot(shape, tags[j]) is Some);
        if made[i].chord == made[j].chord {
            lemma_fill_is_injective(shape.key->prefix, shape.key->suffix, tags[i], tags[j]);
        }
    }
}

/// Where the last entry of a list maps a template over tags of which none
/// occurs twice, the table built from the list binds, for each tag, the chord
/// of the template with the tag in its slot to the operation on that tag.
/// Built from that entry alone, the table holds as many bindings as there are tags.
pub proof fn lemma_mapped_entry_in_table(entries: Seq<EntryModel>)
    requires
        entries.len() > 0,
        entries.last() is MapOver,
        entries.last().defect() is None,
        entries.last()->MapOver_tags.no_duplicates(),
    ensures
        ({
            let table = bind_all(expand(entries));
            let shape = parse_pattern(entries.last().pattern())->0;
            let operation = entries.last()->MapOver_operation;
            let tags = entries.last()->MapOver_tags;
            &&& forall|k: int|
                0 <= k < tags.len() ==> {
                    let chord = ChordModel {
                        mods: shape.mods,
                        key: shape.key->prefix + #[trigger] tags[k] + shape.key->suffix,
                    };
                    &&& table.contains_key(chord)
                    &&& table[chord] == ActionModel::RunInternal(operation.on(tags[k]))
                }
            &&& entries.len() == 1 ==> table.dom().finite() && table.dom().len() == tags.len()
        }),
{
    let last = entries.last();
    let operation = last->MapOver_operation;
    let tags = last->MapOver_tags;
    let made = last.bindings();
    let earlier = expand(entries.drop_last());
    let all = expand(entries);
    let shape = parse_pattern(last.pattern())->0;
    lemma_map_over_binds_each_tag_once(last.pattern(), operation, tags);
    assert(all == earlier + made);
    assert forall|k: int| 0 <= k < tags.len() implies {
        let chord = ChordModel {
            mods: shape.mods,
            key: shape.key->prefix + #[trigger] tags[k] + shape.key->suffix,
        };
        &&& bind_all(all).contains_key(chord)
        &&& bind_all(all)[chord] == ActionModel::RunInternal(operation.on(tags[k]))
    } by {
        let at = earlier.len() + k;
        assert(all[at] == made[k]);
        assert forall|j: int| at < j < all.len() implies (#[trigger] all[j]).chord != all[at].chord by {
            assert(all[j] == made[j - earlier.len()]);
        }
        lemma_last_binding_stands(all, at);
    }
    if entries.len() == 1 {
        assert(entries.drop_last() =~= Seq::empty());
        assert(all =~= made);
        lemma_count_of_distinct(made);
    }
}

/// Where the last entry of a list binds a chord, the table built from the list
/// binds that chord to that entry's action, whatever the entries before it bound it to.
pub proof fn lemma_later_entry_stands(entries: Seq<EntryModel>)
    requires
        entries.len() > 0,
        entries.last() is Bind,
        entries.last().defect() is None,
    ensures
        ({
            let table = bind_all(expand(entries));
            let chord = chord_of(parse_pattern(entries.last().pattern())->0)->0;
            &&& table.contains_key(chord)
            &&& table[chord] == entries.last()->Bind_action
        }),
{
    let made = entries.last().bindings();
    let earlier = expand(entries.drop_last());
    let all = expand(entries);
    assert(all == earlier + made);
    assert(all[earlier.len() as int] == made[0]);
    lemma_last_binding_stands(all, earlier.len() as int);
}

/// A chord that none of the bindings made names is unbound in the table.
pub proof fn lemma_unnamed_chord_is_unbound(entries: Seq<EntryModel>, chord: ChordModel)
    requires
        forall|i: int| 0 <= i < expand(entries).len() ==> (#[trigger] expand(entries)[i]).chord != chord,
    ensures
        !bind_all(expand(entries)).contains_key(chord),
{
    lemma_bound_chords(expand(entries), chord);
}

} // verus!
