//! Key chords and the text patterns that denote them.
//!
//! A pattern is a run of modifier letters, each followed by `-`, and then a
//! key: `M-S-j` is Super and Shift held while `j` is pressed. A key is a
//! symbol name made of ASCII letters, digits and `_`. In a template the key
//! holds the slot `{}` once, which a workspace tag fills in later.

use vstd::prelude::*;

verus! {

/// One modifier key.
#[derive(Clone, Copy, Debug, PartialEq, Eq, Structural)]
pub enum Modifier {
    Super,
    Alt,
    Control,
    Shift,
}

/// A set of modifier keys, one flag for each.
#[derive(Clone, Copy, Debug, PartialEq, Eq, Structural)]
pub struct Modifiers {
    pub super_key: bool,
    pub alt: bool,
    pub control: bool,
    pub shift: bool,
}

impl Modifiers {
    /// The empty set.
    pub open spec fn none() -> Modifiers {
        Modifiers { super_key: false, alt: false, control: false, shift: false }
    }

    /// Whether `m` is in the set.
    pub open spec fn holds(self, m: Modifier) -> bool {
        match m {
            Modifier::Super => self.super_key,
            Modifier::Alt => self.alt,
            Modifier::Control => self.control,
            Modifier::Shift => self.shift,
        }
    }

    /// The set with `m` added.
    pub open spec fn with(self, m: Modifier) -> Modifiers {
        match m {
            Modifier::Super => Modifiers { super_key: true, ..self },
            Modifier::Alt => Modifiers { alt: true, ..self },
            Modifier::Control => Modifiers { control: true, ..self },
            Modifier::Shift => Modifiers { shift: true, ..self },
        }
    }

    /// The set of the modifiers that are in either set.
    pub open spec fn union(self, other: Modifiers) -> Modifiers {
        Modifiers {
            super_key: self.super_key || other.super_key,
            alt: self.alt || other.alt,
            control: self.control || other.control,
            shift: self.shift || other.shift,
        }
    }

    /// The empty set.
    pub fn empty() -> (mods: Modifiers)
        ensures
            mods == Modifiers::none(),
    {
        Modifiers { super_key: false, alt: false, control: false, shift: false }
    }

    /// Whether `m` is in the set.
    pub fn contains(&self, m: Modifier) -> (held: bool)
        ensures
            held == self.holds(m),
    {
        match m {
            Modifier::Super => self.super_key,
            Modifier::Alt => self.alt,
            Modifier::Control => self.control,
            Modifier::Shift => self.shift,
        }
    }

    /// Adds `m` to the set.
    pub fn insert(&mut self, m: Modifier)
        ensures
            *final(self) == old(self).with(m),
    {
        match m {
            Modifier::Super => {
                self.super_key = true;
            },
            Modifier::Alt => {
                self.alt = true;
            },
            Modifier::Control => {
                self.control = true;
            },
            Modifier::Shift => {
                self.shift = true;
            },
        }
    }
}

/// The modifier that a letter of a pattern names.
pub open spec fn modifier_of(c: char) -> Option<Modifier> {
    if c == 'M' {
        Some(Modifier::Super)
    } else if c == 'A' {
        Some(Modifier::Alt)
    } else if c == 'C' {
        Some(Modifier::Control)
    } else if c == 'S' {
        Some(Modifier::Shift)
    } else {
        None
    }
}

/// Whether `c` may stand in the name of a key.
pub open spec fn is_symbol_char(c: char) -> bool {
    ('a' <= c && c <= 'z') || ('A' <= c && c <= 'Z') || ('0' <= c && c <= '9') || c == '_'
}

/// Whether every character of `s` may stand in the name of a key.
pub open spec fn all_symbol_chars(s: Seq<char>) -> bool {
    forall|i: int| 0 <= i < s.len() ==> is_symbol_char(#[trigger] s[i])
}

/// Whether `s` is the name of a key.
pub open spec fn is_symbol(s: Seq<char>) -> bool {
    s.len() > 0 && all_symbol_chars(s)
}

/// The key of a pattern: a name, or a name with a slot in it.
pub enum KeyShape {
    Symbol(Seq<char>),
    Slot { prefix: Seq<char>, suffix: Seq<char> },
}

/// Whether the slot `{}` stands at `p` in `s`, with nothing but name characters around it.
pub open spec fn slot_at(s: Seq<char>, p: int) -> bool {
    &&& 0 <= p <= s.len() - 2
    &&& s[p] == '{'
    &&& s[p + 1] == '}'
    &&& all_symbol_chars(s.take(p))
    &&& all_symbol_chars(s.skip(p + 2))
}

/// What the key part of a pattern denotes, if anything.
pub open spec fn parse_key(s: Seq<char>) -> Option<KeyShape> {
    if is_symbol(s) {
        Some(KeyShape::Symbol(s))
    } else if exists|p: int| slot_at(s, p) {
        let p = choose|p: int| slot_at(s, p);
        Some(KeyShape::Slot { prefix: s.take(p), suffix: s.skip(p + 2) })
    } else {
        None
    }
}

/// What a pattern denotes: the modifiers it names and the shape of its key.
pub struct PatternShape {
    pub mods: Modifiers,
    pub key: KeyShape,
}

/// What the pattern `s` denotes, if it is well formed.
pub open spec fn parse_pattern(s: Seq<char>) -> Option<PatternShape>
    decreases s.len(),
{
    if s.len() >= 2 && s[1] == '-' {
        match modifier_of(s[0]) {
            Some(m) => match parse_pattern(s.skip(2)) {
                Some(rest) => Some(PatternShape { mods: rest.mods.with(m), key: rest.key }),
                None => None,
            },
            None => None,
        }
    } else {
        match parse_key(s) {
            Some(key) => Some(PatternShape { mods: Modifiers::none(), key }),
            None => None,
        }
    }
}

/// A chord as a value: the modifiers held and the name of the key pressed.
pub struct ChordModel {
    pub mods: Modifiers,
    pub key: Seq<char>,
}

/// The chord that a pattern without a slot denotes.
pub open spec fn chord_of(shape: PatternShape) -> Option<ChordModel> {
    match shape.key {
        KeyShape::Symbol(name) => Some(ChordModel { mods: shape.mods, key: name }),
        KeyShape::Slot { .. } => None,
    }
}

/// The chord that a template denotes once `tag` stands in its slot, if that names a key.
pub open spec fn fill_slot(shape: PatternShape, tag: Seq<char>) -> Option<ChordModel> {
    match shape.key {
        KeyShape::Symbol(_) => None,
        KeyShape::Slot { prefix, suffix } => if is_symbol(prefix + tag + suffix) {
            Some(ChordModel { mods: shape.mods, key: prefix + tag + suffix })
        } else {
            None
        },
    }
}

/// The chord that the text `s` denotes, if it is a well-formed pattern without a slot.
pub open spec fn parse_chord(s: Seq<char>) -> Option<ChordModel> {
    match parse_pattern(s) {
        Some(shape) => chord_of(shape),
        None => None,
    }
}

/// The text `letter-` where the modifier is held, and nothing where it is not.
pub open spec fn modifier_text(held: bool, letter: char) -> Seq<char> {
    if held {
        seq![letter, '-']
    } else {
        Seq::empty()
    }
}

/// The pattern that denotes `chord`, with its modifiers in the order Super, Alt, Control, Shift.
pub open spec fn pattern_text(chord: ChordModel) -> Seq<char> {
    modifier_text(chord.mods.super_key, 'M') + (modifier_text(chord.mods.alt, 'A') + (modifier_text(
        chord.mods.control,
        'C',
    ) + (modifier_text(chord.mods.shift, 'S') + chord.key)))
}

/// Where the digest of a name starts.
pub const DIGEST_SEED: u64 = 0xcbf2_9ce4_8422_2325;

/// What the digest is multiplied by at each step.
pub const DIGEST_PRIME: u64 = 0x0000_0100_0000_01b3;

/// The digest `h` after one more number went into it.
pub open spec fn digest_step(h: u64, n: u64) -> u64 {
    h.wrapping_mul(DIGEST_PRIME).wrapping_add(n)
}

/// The digest of the characters of `s`, taken in order.
pub open spec fn digest_of_name(s: Seq<char>) -> u64
    decreases s.len(),
{
    if s.len() == 0 {
        DIGEST_SEED
    } else {
        digest_step(digest_of_name(s.drop_last()), s.last() as u64)
    }
}

/// The number that stands for a set of modifiers: one bit for each.
pub open spec fn modifier_bits(mods: Modifiers) -> u64 {
    ((if mods.super_key { 1int } else { 0 }) + (if mods.alt { 2int } else { 0 }) + (if mods.control {
        4int
    } else {
        0
    }) + (if mods.shift { 8int } else { 0 })) as u64
}

/// The digest of a chord: a number that two chords share where they are the
/// same chord, and that a table uses to find a chord fast.
pub open spec fn digest_of(chord: ChordModel) -> u64 {
    digest_step(digest_of_name(chord.key), modifier_bits(chord.mods))
}

/// The modifiers of `parsed` together with those in `mods`.
spec fn with_modifiers(parsed: Option<PatternShape>, mods: Modifiers) -> Option<
    PatternShape,
> {
    match parsed {
        Some(shape) => Some(PatternShape { mods: shape.mods.union(mods), key: shape.key }),
        None => None,
    }
}

/// The modifier that a letter of a pattern names.
pub fn modifier_for(c: char) -> (m: Option<Modifier>)
    ensures
        m == modifier_of(c),
{
    if c == 'M' {
        Some(Modifier::Super)
    } else if c == 'A' {
        Some(Modifier::Alt)
    } else if c == 'C' {
        Some(Modifier::Control)
    } else if c == 'S' {
        Some(Modifier::Shift)
    } else {
        None
    }
}

/// Whether `c` may stand in the name of a key.
pub fn symbol_char(c: char) -> (ok: bool)
    ensures
        ok == is_symbol_char(c),
{
    ('a' <= c && c <= 'z') || ('A' <= c && c <= 'Z') || ('0' <= c && c <= '9') || c == '_'
}

/// Where the longest run of name characters that starts at `from` ends.
fn symbol_run(chars: &Vec<char>, from: usize) -> (end: usize)
    requires
        from <= chars.len(),
    ensures
        from <= end <= chars.len(),
        forall|i: int| from <= i < end ==> is_symbol_char(#[trigger] chars@[i]),
        end < chars.len() ==> !is_symbol_char(chars@[end as int]),
{
    let mut end: usize = from;
    while end < chars.len() && symbol_char(chars[end])
        invariant
            from <= end <= chars.len(),
            forall|i: int| from <= i < end ==> is_symbol_char(#[trigger] chars@[i]),
        decreases chars.len() - end,
    {
        end += 1;
    }
    end
}


/// The characters of `text`, in order.
fn chars_of(text: &str) -> (chars: Vec<char>)
    ensures
        chars@ == text@,
{
    let mut chars: Vec<char> = Vec::new();
    for c in it: text.chars()
        invariant
            chars@ == it.seq().take(it.index() as int),
            it.seq() == text@,
    {
        chars.push(c);
    }
    chars
}

/// The characters of `text` from `from` up to `to`, as a string of their own.
fn slice_of(text: &str, from: usize, to: usize) -> (part: String)
    requires
        from <= to <= text@.len(),
    ensures
        part@ == text@.subrange(from as int, to as int),
{
    text.substring_char(from, to).to_owned()
}

/// A slot can only stand where the first character that is no name character stands.
proof fn lemma_slot_is_first_stop(s: Seq<char>, stop: int)
    requires
        0 <= stop < s.len(),
        forall|i: int| 0 <= i < stop ==> is_symbol_char(#[trigger] s[i]),
        !is_symbol_char(s[stop]),
    ensures
        !is_symbol(s),
        forall|p: int| slot_at(s, p) ==> p == stop,
{
    assert forall|p: int| slot_at(s, p) implies p == stop by {
        if p < stop {
            assert(is_symbol_char(s[p]));
        } else if p > stop {
            assert(s.take(p)[stop] == s[stop]);
        }
    }
}

/// The key of a pattern, as it is held.
#[derive(Debug, PartialEq, Eq)]
enum KeyPattern {
    Symbol(String),
    Slot { prefix: String, suffix: String },
}

impl KeyPattern {
    spec fn shape(self) -> KeyShape {
        match self {
            KeyPattern::Symbol(name) => KeyShape::Symbol(name@),
            KeyPattern::Slot { prefix, suffix } => KeyShape::Slot {
                prefix: prefix@,
                suffix: suffix@,
            },
        }
    }

    spec fn sound(self) -> bool {
        match self {
            KeyPattern::Symbol(name) => is_symbol(name@),
            KeyPattern::Slot { prefix, suffix } => all_symbol_chars(prefix@) && all_symbol_chars(
                suffix@,
            ),
        }
    }
}

impl KeyPattern {
    fn duplicate(&self) -> (copy: Self)
        ensures
            copy.shape() == self.shape(),
            copy.sound() == self.sound(),
    {
        match self {
            KeyPattern::Symbol(name) => KeyPattern::Symbol(name.clone()),
            KeyPattern::Slot { prefix, suffix } => KeyPattern::Slot {
                prefix: prefix.clone(),
                suffix: suffix.clone(),
            },
        }
    }
}

spec fn key_shape(key: Option<KeyPattern>) -> Option<KeyShape> {
    match key {
        Some(k) => Some(k.shape()),
        None => None,
    }
}

/// Reads the key part of a pattern, which starts at `from`.
fn read_key(text: &str, chars: &Vec<char>, from: usize) -> (key: Option<KeyPattern>)
    requires
        chars@ == text@,
        from <= chars.len(),
    ensures
        key_shape(key) == parse_key(text@.skip(from as int)),
        key matches Some(k) ==> k.sound(),
{
    let n = chars.len();
    let ghost s = text@.skip(from as int);
    let stop = symbol_run(chars, from);
    assert forall|i: int| 0 <= i < stop - from implies is_symbol_char(#[trigger] s[i]) by {
        assert(s[i] == chars@[from + i]);
    }
    if stop == n {
        if from < n {
            let name = slice_of(text, from, n);
            assert(name@ =~= s);
            Some(KeyPattern::Symbol(name))
        } else {
            None
        }
    } else {
        proof {
            lemma_slot_is_first_stop(s, stop - from);
        }
        if chars[stop] == '{' && n - stop >= 2 && chars[stop + 1] == '}' {
            let rest = symbol_run(chars, stop + 2);
            if rest == n {
                let prefix = slice_of(text, from, stop);
                let suffix = slice_of(text, stop + 2, n);
                proof {
                    let p = stop - from;
                    assert(prefix@ =~= s.take(p));
                    assert(suffix@ =~= s.skip(p + 2));
                    assert forall|i: int| 0 <= i < suffix@.len() implies is_symbol_char(
                        #[trigger] suffix@[i],
                    ) by {
                        assert(suffix@[i] == chars@[stop + 2 + i]);
                    }
                    assert(slot_at(s, p));
                }
                Some(KeyPattern::Slot { prefix, suffix })
            } else {
                proof {
                    let p = stop - from;
                    assert(s.skip(p + 2)[rest - stop - 2] == chars@[rest as int]);
                    assert(!slot_at(s, p));
                }
                None
            }
        } else {
            assert(!slot_at(s, stop - from));
            None
        }
    }
}

/// A chord pattern: the text form of a chord, or of a family of chords that
/// differ in what fills the slot of the key.
#[derive(Debug, PartialEq, Eq)]
pub struct ChordPattern {
    mods: Modifiers,
    key: KeyPattern,
}

/// What `pattern` denotes, if there is one.
pub open spec fn pattern_shape(pattern: Option<ChordPattern>) -> Option<PatternShape> {
    match pattern {
        Some(p) => Some(p@),
        None => None,
    }
}

impl View for ChordPattern {
    type V = PatternShape;

    closed spec fn view(&self) -> PatternShape {
        PatternShape { mods: self.mods, key: self.key.shape() }
    }
}

impl Clone for ChordPattern {
    fn clone(&self) -> (copy: Self)
        ensures
            copy@ == self@,
    {
        proof {
            use_type_invariant(self);
        }
        ChordPattern { mods: self.mods, key: self.key.duplicate() }
    }
}

impl ChordPattern {
    /// Every name held is made of name characters, and a key without a slot is not empty.
    #[verifier::type_invariant]
    pub closed spec fn sound(self) -> bool {
        self.key.sound()
    }

    /// Reads a pattern. The result is `None` exactly when `text` is malformed.
    pub fn parse(text: &str) -> (pattern: Option<ChordPattern>)
        ensures
            pattern_shape(pattern) == parse_pattern(text@),
    {
        let chars = chars_of(text);
        let n = chars.len();
        let mut mods = Modifiers::empty();
        let mut at: usize = 0;
        assert(text@.skip(0) =~= text@);
        while n - at >= 2 && chars[at + 1] == '-'
            invariant
                at <= n,
                n == chars.len(),
                chars@ == text@,
                parse_pattern(text@) == with_modifiers(parse_pattern(text@.skip(at as int)), mods),
            decreases n - at,
        {
            let ghost rest = text@.skip(at as int);
            assert(rest.skip(2) =~= text@.skip(at + 2));
            assert(rest[0] == chars@[at as int] && rest[1] == chars@[at + 1]);
            match modifier_for(chars[at]) {
                Some(m) => {
                    mods.insert(m);
                    at += 2;
                },
                None => {
                    return None;
                },
            }
        }
        proof {
            let rest = text@.skip(at as int);
            if rest.len() >= 2 {
                assert(rest[1] == chars@[at + 1]);
            }
        }
        match read_key(text, &chars, at) {
            Some(key) => Some(ChordPattern { mods, key }),
            None => None,
        }
    }

    /// The modifiers that the pattern names.
    pub fn mods(&self) -> (mods: Modifiers)
        ensures
            mods == self@.mods,
    {
        self.mods
    }

    /// The chord that the pattern denotes by itself: `None` where its key holds a slot.
    pub fn chord(&self) -> (chord: Option<KeyChord>)
        ensures
            chord_model(chord) == chord_of(self@),
    {
        proof {
            use_type_invariant(self);
        }
        match &self.key {
            KeyPattern::Symbol(name) => Some(KeyChord { mods: self.mods, key: name.clone() }),
            KeyPattern::Slot { .. } => None,
        }
    }

    /// The chord that the pattern denotes with `tag` in its slot: `None` where it has
    /// no slot, or where the key so made is no name.
    pub fn fill(&self, tag: &str) -> (chord: Option<KeyChord>)
        ensures
            chord_model(chord) == fill_slot(self@, tag@),
    {
        proof {
            use_type_invariant(self);
        }
        match &self.key {
            KeyPattern::Symbol(_) => None,
            KeyPattern::Slot { prefix, suffix } => {
                let chars = chars_of(tag);
                let stop = symbol_run(&chars, 0);
                let ghost whole = prefix@ + tag@ + suffix@;
                if stop < chars.len() {
                    assert(whole[prefix@.len() + stop] == tag@[stop as int]);
                    None
                } else if prefix.as_str().is_empty() && tag.is_empty() && suffix.as_str().is_empty() {
                    None
                } else {
                    let mut key = prefix.clone();
                    key.append(tag);
                    key.append(suffix.as_str());
                    assert(key@ =~= whole);
                    Some(KeyChord { mods: self.mods, key })
                }
            },
        }
    }

    /// Whether the key of the pattern holds a slot.
    pub fn has_slot(&self) -> (slot: bool)
        ensures
            slot == (self@.key is Slot),
    {
        match &self.key {
            KeyPattern::Symbol(_) => false,
            KeyPattern::Slot { .. } => true,
        }
    }
}

/// A chord: the modifiers held and the key pressed with them.
#[derive(Debug, PartialEq, Eq)]
pub struct KeyChord {
    mods: Modifiers,
    key: String,
}

/// The value of `chord`, if there is one.
pub open spec fn chord_model(chord: Option<KeyChord>) -> Option<ChordModel> {
    match chord {
        Some(c) => Some(c@),
        None => None,
    }
}

impl View for KeyChord {
    type V = ChordModel;

    closed spec fn view(&self) -> ChordModel {
        ChordModel { mods: self.mods, key: self.key@ }
    }
}

impl Clone for KeyChord {
    fn clone(&self) -> (copy: Self)
        ensures
            copy@ == self@,
    {
        proof {
            use_type_invariant(self);
        }
        KeyChord { mods: self.mods, key: self.key.clone() }
    }
}

impl KeyChord {
    /// The key of a chord is a name.
    #[verifier::type_invariant]
    pub closed spec fn sound(self) -> bool {
        is_symbol(self.key@)
    }

    /// The chord of `key` with `mods` held: `None` exactly when `key` is no name.
    pub fn new(mods: Modifiers, key: &str) -> (chord: Option<KeyChord>)
        ensures
            chord_model(chord) == if is_symbol(key@) {
                Some(ChordModel { mods, key: key@ })
            } else {
                None
            },
    {
        let chars = chars_of(key);
        let stop = symbol_run(&chars, 0);
        if chars.len() > 0 && stop == chars.len() {
            Some(KeyChord { mods, key: String::from_str(key) })
        } else {
            None
        }
    }

    /// Reads a chord. The result is `None` exactly when `text` is malformed or holds a slot.
    pub fn parse(text: &str) -> (chord: Option<KeyChord>)
        ensures
            chord_model(chord) == parse_chord(text@),
    {
        match ChordPattern::parse(text) {
            Some(pattern) => pattern.chord(),
            None => None,
        }
    }

    /// The modifiers held.
    pub fn mods(&self) -> (mods: Modifiers)
        ensures
            mods == self@.mods,
    {
        self.mods
    }

    /// The name of the key pressed.
    pub fn key(&self) -> (key: &str)
        ensures
            key@ == self@.key,
            is_symbol(key@),
    {
        proof {
            use_type_invariant(self);
        }
        self.key.as_str()
    }

    /// Whether the two chords are the same: the same modifiers and the same key.
    pub fn same_as(&self, other: &KeyChord) -> (same: bool)
        ensures
            same == (self@ == other@),
    {
        self.mods == other.mods && self.key.eq(&other.key)
    }

    /// The digest of the chord.
    pub fn digest(&self) -> (h: u64)
        ensures
            h == digest_of(self@),
    {
        let mut h: u64 = DIGEST_SEED;
        let ghost name = self.key@;
        assert(name.take(0) =~= Seq::empty());
        for c in it: self.key.as_str().chars()
            invariant
                it.seq() == name,
                h == digest_of_name(name.take(it.index() as int)),
        {
            proof {
                let i = it.index() as int;
                assert(name.take(i + 1).drop_last() =~= name.take(i));
                assert(name.take(i + 1).last() == c);
            }
            h = h.wrapping_mul(DIGEST_PRIME).wrapping_add(c as u64);
        }
        assert(name.take(name.len() as int) =~= name);
        let mut bits: u64 = 0;
        if self.mods.super_key {
            bits += 1;
        }
        if self.mods.alt {
            bits += 2;
        }
        if self.mods.control {
            bits += 4;
        }
        if self.mods.shift {
            bits += 8;
        }
        h.wrapping_mul(DIGEST_PRIME).wrapping_add(bits)
    }

    /// The pattern that denotes this chord.
    pub fn pattern(&self) -> (text: String)
        ensures
            text@ == pattern_text(self@),
            parse_chord(text@) == Some(self@),
    {
        proof {
            use_type_invariant(self);
            reveal_strlit("M-");
            reveal_strlit("A-");
            reveal_strlit("C-");
            reveal_strlit("S-");
            lemma_pattern_text_parses(self@);
        }
        let mut text = String::new();
        if self.mods.super_key {
            text.append("M-");
        }
        if self.mods.alt {
            text.append("A-");
        }
        if self.mods.control {
            text.append("C-");
        }
        if self.mods.shift {
            text.append("S-");
        }
        text.append(self.key.as_str());
        proof {
            let m = self.mods;
            let t3 = modifier_text(m.shift, 'S') + self.key@;
            let t2 = modifier_text(m.control, 'C') + t3;
            let t1 = modifier_text(m.alt, 'A') + t2;
            assert(modifier_text(m.super_key, 'M') + modifier_text(m.alt, 'A') + t2 =~= modifier_text(
                m.super_key,
                'M',
            ) + t1);
            assert(modifier_text(m.super_key, 'M') + modifier_text(m.alt, 'A') + modifier_text(
                m.control,
                'C',
            ) + t3 =~= modifier_text(m.super_key, 'M') + modifier_text(m.alt, 'A') + t2);
            assert(text@ =~= modifier_text(m.super_key, 'M') + modifier_text(m.alt, 'A')
                + modifier_text(m.control, 'C') + t3);
        }
        text
    }
}

/// A name by itself is the pattern of its key with nothing held.
pub proof fn lemma_symbol_parses(name: Seq<char>)
    requires
        is_symbol(name),
    ensures
        parse_pattern(name) == Some(
            PatternShape { mods: Modifiers::none(), key: KeyShape::Symbol(name) },
        ),
{
    if name.len() >= 2 {
        assert(is_symbol_char(name[1]));
    }
}

/// A modifier letter and `-` before a pattern add that modifier to what the pattern names.
pub proof fn lemma_modifier_prefix_parses(letter: char, held: bool, rest: Seq<char>)
    requires
        modifier_of(letter) is Some,
    ensures
        parse_pattern(modifier_text(held, letter) + rest) == if held {
            match parse_pattern(rest) {
                Some(shape) => Some(
                    PatternShape { mods: shape.mods.with(modifier_of(letter)->0), key: shape.key },
                ),
                None => None,
            }
        } else {
            parse_pattern(rest)
        },
{
    let text = modifier_text(held, letter) + rest;
    if held {
        assert(text[0] == letter && text[1] == '-');
        assert(text.skip(2) =~= rest);
    } else {
        assert(text =~= rest);
    }
}

/// Reading the pattern of a chord gives the chord back.
pub proof fn lemma_pattern_text_parses(chord: ChordModel)
    requires
        is_symbol(chord.key),
    ensures
        parse_chord(pattern_text(chord)) == Some(chord),
{
    let m = chord.mods;
    let none = Modifiers::none();
    let key = KeyShape::Symbol(chord.key);
    let t4 = chord.key;
    let t3 = modifier_text(m.shift, 'S') + t4;
    let t2 = modifier_text(m.control, 'C') + t3;
    let t1 = modifier_text(m.alt, 'A') + t2;
    lemma_symbol_parses(t4);
    lemma_modifier_prefix_parses('S', m.shift, t4);
    let m3 = Modifiers { shift: m.shift, ..none };
    assert(parse_pattern(t3) == Some(PatternShape { mods: m3, key }));
    lemma_modifier_prefix_parses('C', m.control, t3);
    let m2 = Modifiers { control: m.control, ..m3 };
    assert(parse_pattern(t2) == Some(PatternShape { mods: m2, key }));
    lemma_modifier_prefix_parses('A', m.alt, t2);
    let m1 = Modifiers { alt: m.alt, ..m2 };
    assert(parse_pattern(t1) == Some(PatternShape { mods: m1, key }));
    lemma_modifier_prefix_parses('M', m.super_key, t1);
    assert(m == Modifiers { super_key: m.super_key, ..m1 });
}

/// Whether `{}` stands at `p` in `text`.
pub open spec fn braces_at(text: Seq<char>, p: int) -> bool {
    0 <= p <= text.len() - 2 && text[p] == '{' && text[p + 1] == '}'
}

/// Filling the slot of a template is writing the tag where `{}` stands in its
/// text: where the filled template denotes a chord, the text with the tag in
/// place of `{}` is the pattern of that chord.
pub proof fn lemma_filling_is_writing_the_tag(text: Seq<char>, tag: Seq<char>) -> (p: int)
    requires
        parse_pattern(text) is Some,
        fill_slot(parse_pattern(text)->0, tag) is Some,
    ensures
        braces_at(text, p),
        parse_chord(text.take(p) + tag + text.skip(p + 2)) == fill_slot(parse_pattern(text)->0, tag),
    decreases text.len(),
{
    if text.len() >= 2 && text[1] == '-' {
        let rest = text.skip(2);
        let q = lemma_filling_is_writing_the_tag(rest, tag);
        let p = q + 2;
        let written = text.take(p) + tag + text.skip(p + 2);
        assert(written[0] == text[0] && written[1] == '-');
        assert(written.skip(2) =~= rest.take(q) + tag + rest.skip(q + 2));
        p
    } else {
        let p = choose|p: int| slot_at(text, p);
        lemma_symbol_parses(text.take(p) + tag + text.skip(p + 2));
        p
    }
}

} // verus!
