//! Text search queries: the tokens of a query, their numeric codes and rank
//! labels, and the mathematical view that the codec and the renderer are
//! specified over.

use vstd::prelude::*;
use vstd::std_specs::convert::FromSpecImpl;
use vstd::std_specs::convert::TryFromSpecImpl;
use vstd::utf8::encode_utf8;

pub mod codec;
pub mod laws;
pub mod render;

verus! {

/// Why a byte string is not a text search query, or a number not a code.
#[derive(Copy, Clone, Eq, PartialEq, Debug, Structural)]
pub enum TsQueryError {
    /// The buffer ends before a field does.
    TruncatedInput,
    /// An operator code other than 1, 2, 3 or 4.
    InvalidOperator,
    /// An operand weight above 15.
    InvalidWeight,
    /// An operand text longer than 2047 bytes.
    OperandTooLong,
    /// An operand text that is not well-formed UTF-8.
    Utf8Error,
    /// An operator code followed by exactly one more byte.
    TrailingOperator,
    /// An entry tag that names neither kind of entry.
    InvalidEntryType,
    /// The output buffer cannot take the encoded query.
    BufferFull,
}

/// The four operators of a query, from loosest to tightest rendering tier.
#[derive(Copy, Clone, Eq, PartialEq, Debug, PartialOrd, Structural)]
pub enum Operators {
    Not,
    And,
    Or,
    Phrase,
}

/// An operator token. `distance` is carried by `Phrase` only.
#[derive(Clone, Debug, Copy, PartialEq)]
pub struct Operator {
    pub operator: Operators,
    pub distance: Option<i16>,
}

/// An operand: a lexeme with its rank weights and prefix-match flag.
#[derive(Debug, PartialEq)]
pub struct Value {
    pub weight: u8,
    pub text: String,
    pub prefix: bool,
}

/// One token of a query.
#[derive(Debug, PartialEq)]
pub enum Entry {
    Operator(Operator),
    Value(Value),
}

/// The tag byte that opens an entry on the wire.
#[derive(Copy, Clone, Eq, PartialEq, Debug, Structural)]
pub enum EntryType {
    Value,
    Operator,
}

/// A query: its tokens in the order in which the wire carries them.
#[derive(Debug, PartialEq)]
pub struct PgTsQuery {
    pub entries: Vec<Entry>,
}

/// The longest operand text that a query may carry, in bytes.
pub const MAX_OPERAND_LEN: usize = 2047;

/// The highest operand weight: all four rank bits set.
pub const MAX_WEIGHT: u8 = 15;

/// An operand as a mathematical value.
pub struct ValueView {
    pub weight: u8,
    pub text: Seq<char>,
    pub prefix: bool,
}

/// A token as a mathematical value.
pub enum EntryView {
    Operator(Operator),
    Value(ValueView),
}

impl View for Value {
    type V = ValueView;

    open spec fn view(&self) -> ValueView {
        ValueView { weight: self.weight, text: self.text@, prefix: self.prefix }
    }
}

impl View for Entry {
    type V = EntryView;

    open spec fn view(&self) -> EntryView {
        match *self {
            Entry::Operator(op) => EntryView::Operator(op),
            Entry::Value(v) => EntryView::Value(v@),
        }
    }
}

/// The tokens of a vector of entries, as mathematical values.
pub open spec fn entry_views(entries: Seq<Entry>) -> Seq<EntryView> {
    Seq::new(entries.len(), |i: int| entries[i]@)
}

impl View for PgTsQuery {
    type V = Seq<EntryView>;

    open spec fn view(&self) -> Seq<EntryView> {
        entry_views(self.entries@)
    }
}

/// An operator carries a distance exactly when it is `Phrase`.
pub open spec fn operator_well_formed(op: Operator) -> bool {
    (op.operator == Operators::Phrase) == (op.distance is Some)
}

/// An operand has a weight of four bits and a text of at most 2047 bytes,
/// none of them zero.
pub open spec fn value_well_formed(v: ValueView) -> bool {
    &&& v.weight <= MAX_WEIGHT
    &&& encode_utf8(v.text).len() <= MAX_OPERAND_LEN
    &&& forall|i: int| 0 <= i < encode_utf8(v.text).len() ==> encode_utf8(v.text)[i] != 0
}

/// A token that the wire carries without loss.
pub open spec fn entry_well_formed(e: EntryView) -> bool {
    match e {
        EntryView::Operator(op) => operator_well_formed(op),
        EntryView::Value(v) => value_well_formed(v),
    }
}

/// Tokens that the wire carries without loss, each of them.
pub open spec fn entries_well_formed(entries: Seq<EntryView>) -> bool {
    forall|i: int| 0 <= i < entries.len() ==> entry_well_formed(#[trigger] entries[i])
}

/// A query that the wire carries without loss: its count fits the count
/// field, and so does each token its entry.
pub open spec fn query_well_formed(entries: Seq<EntryView>) -> bool {
    entries.len() <= u32::MAX && entries_well_formed(entries)
}

impl Clone for Value {
    fn clone(&self) -> (r: Self)
        ensures
            r == *self,
    {
        Value { weight: self.weight, text: self.text.clone(), prefix: self.prefix }
    }
}

impl Clone for Entry {
    fn clone(&self) -> (r: Self)
        ensures
            r == *self,
    {
        match self {
            Entry::Operator(op) => Entry::Operator(*op),
            Entry::Value(v) => Entry::Value(v.clone()),
        }
    }
}

impl Clone for PgTsQuery {
    fn clone(&self) -> (r: Self)
        ensures
            r@ == self@,
    {
        let r = PgTsQuery { entries: self.entries.clone() };
        assert(r@ =~= self@);
        r
    }
}

impl Operator {
    /// Whether the operator carries a distance exactly when it is `Phrase`.
    pub fn is_well_formed(&self) -> (r: bool)
        ensures
            r == operator_well_formed(*self),
    {
        (self.operator == Operators::Phrase) == self.distance.is_some()
    }
}

impl Entry {
    /// Whether the wire carries the token without loss.
    pub fn is_well_formed(&self) -> (r: bool)
        ensures
            r == entry_well_formed(self@),
    {
        match self {
            Entry::Operator(op) => op.is_well_formed(),
            Entry::Value(v) => v.is_well_formed(),
        }
    }
}

impl PgTsQuery {
    /// Whether the wire carries the query without loss.
    pub fn is_well_formed(&self) -> (r: bool)
        ensures
            r == query_well_formed(self@),
    {
        if self.entries.len() > u32::MAX as usize {
            return false;
        }
        let mut i: usize = 0;
        while i < self.entries.len()
            invariant
                i <= self.entries@.len(),
                forall|j: int| 0 <= j < i ==> entry_well_formed(#[trigger] self@[j]),
            decreases self.entries@.len() - i,
        {
            if !self.entries[i].is_well_formed() {
                assert(!entry_well_formed(self@[i as int]));
                return false;
            }
            i += 1;
        }
        true
    }
}

impl Value {
    /// The operand with these parts, where they make a well-formed one.
    pub fn new(weight: u8, text: String, prefix: bool) -> (r: Option<Self>)
        ensures
            r is Some <==> value_well_formed(ValueView { weight, text: text@, prefix }),
            r matches Some(v) ==> v@ == (ValueView { weight, text: text@, prefix }),
    {
        let v = Value { weight, text, prefix };
        if v.is_well_formed() {
            Some(v)
        } else {
            None
        }
    }

    /// Whether the weight has four bits and the text is at most 2047 bytes
    /// long, none of them zero.
    pub fn is_well_formed(&self) -> (r: bool)
        ensures
            r == value_well_formed(self@),
    {
        let bytes = self.text.as_str().as_bytes();
        if self.weight > MAX_WEIGHT || bytes.len() > MAX_OPERAND_LEN {
            return false;
        }
        let mut i: usize = 0;
        while i < bytes.len()
            invariant
                i <= bytes@.len(),
                bytes@ == encode_utf8(self.text@),
                forall|j: int| 0 <= j < i ==> bytes@[j] != 0,
            decreases bytes@.len() - i,
        {
            if bytes[i] == 0 {
                return false;
            }
            i += 1;
        }
        true
    }

    /// The length of the text in bytes, as the wire carries it.
    pub fn length(&self) -> (n: usize)
        ensures
            n == encode_utf8(self.text@).len(),
    {
        self.text.as_str().as_bytes().len()
    }
}

/// The wire code of an operator.
pub open spec fn operator_code(op: Operators) -> i8 {
    match op {
        Operators::Not => 1,
        Operators::And => 2,
        Operators::Or => 3,
        Operators::Phrase => 4,
    }
}

/// The operator that a wire code names, if it names one.
pub open spec fn operator_of_code(code: i8) -> Option<Operators> {
    if code == 1 {
        Some(Operators::Not)
    } else if code == 2 {
        Some(Operators::And)
    } else if code == 3 {
        Some(Operators::Or)
    } else if code == 4 {
        Some(Operators::Phrase)
    } else {
        None
    }
}

/// The two mappings between operators and codes undo each other.
pub proof fn lemma_operator_codes(op: Operators, code: i8)
    ensures
        operator_of_code(operator_code(op)) == Some(op),
        operator_of_code(code) matches Some(o) ==> operator_code(o) == code,
        operator_of_code(code) is Some <==> 1 <= code <= 4,
{
}

impl From<Operators> for i8 {
    fn from(val: Operators) -> (code: i8)
        ensures
            code == operator_code(val),
    {
        match val {
            Operators::Not => 1,
            Operators::And => 2,
            Operators::Or => 3,
            Operators::Phrase => 4,
        }
    }
}

impl FromSpecImpl<Operators> for i8 {
    open spec fn obeys_from_spec() -> bool {
        true
    }

    open spec fn from_spec(v: Operators) -> i8 {
        operator_code(v)
    }
}

impl TryFrom<i8> for Operators {
    type Error = TsQueryError;

    fn try_from(value: i8) -> (r: Result<Self, TsQueryError>)
        ensures
            r == match operator_of_code(value) {
                Some(op) => Ok::<Operators, TsQueryError>(op),
                None => Err(TsQueryError::InvalidOperator),
            },
    {
        match value {
            1 => Ok(Operators::Not),
            2 => Ok(Operators::And),
            3 => Ok(Operators::Or),
            4 => Ok(Operators::Phrase),
            _ => Err(TsQueryError::InvalidOperator),
        }
    }
}

impl TryFromSpecImpl<i8> for Operators {
    open spec fn obeys_try_from_spec() -> bool {
        true
    }

    open spec fn try_from_spec(v: i8) -> Result<Self, TsQueryError> {
        match operator_of_code(v) {
            Some(op) => Ok(op),
            None => Err(TsQueryError::InvalidOperator),
        }
    }
}

/// The tag that an encoder writes for each kind of entry.
pub open spec fn entry_tag(kind: EntryType) -> u8 {
    match kind {
        EntryType::Value => 1,
        EntryType::Operator => 2,
    }
}

impl From<EntryType> for u8 {
    fn from(val: EntryType) -> (tag: u8)
        ensures
            tag == entry_tag(val),
    {
        match val {
            EntryType::Value => 1,
            EntryType::Operator => 2,
        }
    }
}

impl FromSpecImpl<EntryType> for u8 {
    open spec fn obeys_from_spec() -> bool {
        true
    }

    open spec fn from_spec(v: EntryType) -> u8 {
        entry_tag(v)
    }
}

/// The kind of entry that a tag names, if it names one: 1 a value, 2 an
/// operator.
pub open spec fn entry_type_of_tag(tag: u8) -> Option<EntryType> {
    if tag == 1 {
        Some(EntryType::Value)
    } else if tag == 2 {
        Some(EntryType::Operator)
    } else {
        None
    }
}

/// The two mappings between kinds of entry and tags undo each other.
pub proof fn lemma_entry_tags(kind: EntryType, tag: u8)
    ensures
        entry_type_of_tag(entry_tag(kind)) == Some(kind),
        entry_type_of_tag(tag) matches Some(k) ==> entry_tag(k) == tag,
        entry_type_of_tag(tag) is Some <==> 1 <= tag <= 2,
{
}

impl TryFrom<u8> for EntryType {
    type Error = TsQueryError;

    fn try_from(value: u8) -> (r: Result<Self, TsQueryError>)
        ensures
            r == match entry_type_of_tag(value) {
                Some(kind) => Ok::<EntryType, TsQueryError>(kind),
                None => Err(TsQueryError::InvalidEntryType),
            },
    {
        match value {
            1 => Ok(EntryType::Value),
            2 => Ok(EntryType::Operator),
            _ => Err(TsQueryError::InvalidEntryType),
        }
    }
}

impl TryFromSpecImpl<u8> for EntryType {
    open spec fn obeys_try_from_spec() -> bool {
        true
    }

    open spec fn try_from_spec(v: u8) -> Result<Self, TsQueryError> {
        match entry_type_of_tag(v) {
            Some(kind) => Ok(kind),
            None => Err(TsQueryError::InvalidEntryType),
        }
    }
}

/// Whether bit `bit` (0 is the lowest) is set in `weight`.
pub open spec fn has_rank(weight: u8, bit: nat) -> bool {
    if bit == 0 {
        weight as int % 2 == 1
    } else if bit == 1 {
        weight as int / 2 % 2 == 1
    } else if bit == 2 {
        weight as int / 4 % 2 == 1
    } else {
        weight as int / 8 % 2 == 1
    }
}

/// The letter of one rank where `weight` has its bit, and nothing where not.
pub open spec fn rank_piece(weight: u8, bit: nat, letter: char) -> Seq<char> {
    if has_rank(weight, bit) {
        seq![letter]
    } else {
        Seq::empty()
    }
}

/// The letters of the ranks present in `weight`, A (bit 3) first and D
/// (bit 0) last.
pub open spec fn rank_letters(weight: u8) -> Seq<char> {
    rank_piece(weight, 3, 'A') + rank_piece(weight, 2, 'B') + rank_piece(weight, 1, 'C')
        + rank_piece(weight, 0, 'D')
}

/// The label of a weight: its rank letters, or none for weight 0 and for
/// weights that do not fit in four bits.
pub open spec fn weight_label(weight: u8) -> Option<Seq<char>> {
    if weight == 0 || weight > 15 {
        None
    } else {
        Some(rank_letters(weight))
    }
}

/// The label of a weight, as `weight_label` defines it.
pub fn weight_to_string(weight: u8) -> (r: Option<&'static str>)
    ensures
        r is Some <==> 1 <= weight <= 15,
        match r {
            Some(s) => weight_label(weight) == Some(s@),
            None => weight_label(weight) is None,
        },
{
    proof {
        reveal_strlit("A");
        reveal_strlit("B");
        reveal_strlit("C");
        reveal_strlit("D");
        reveal_strlit("AB");
        reveal_strlit("AC");
        reveal_strlit("AD");
        reveal_strlit("BC");
        reveal_strlit("BD");
        reveal_strlit("CD");
        reveal_strlit("ABC");
        reveal_strlit("ABD");
        reveal_strlit("ACD");
        reveal_strlit("BCD");
        reveal_strlit("ABCD");
    }
    let r = match weight {
        0 => None,
        8 => Some("A"),
        4 => Some("B"),
        2 => Some("C"),
        1 => Some("D"),
        12 => Some("AB"),
        10 => Some("AC"),
        9 => Some("AD"),
        6 => Some("BC"),
        5 => Some("BD"),
        3 => Some("CD"),
        14 => Some("ABC"),
        13 => Some("ABD"),
        11 => Some("ACD"),
        7 => Some("BCD"),
        15 => Some("ABCD"),
        _ => None,
    };
    proof {
        if let Some(s) = r {
            assert(s@ =~= rank_letters(weight));
        }
    }
    r
}

proof fn lemma_contains_concat(x: Seq<char>, y: Seq<char>, c: char)
    ensures
        (x + y).contains(c) <==> x.contains(c) || y.contains(c),
{
    if x.contains(c) {
        let i = choose|i: int| 0 <= i < x.len() && x[i] == c;
        assert((x + y)[i] == c);
    }
    if y.contains(c) {
        let i = choose|i: int| 0 <= i < y.len() && y[i] == c;
        assert((x + y)[x.len() + i] == c);
    }
    if (x + y).contains(c) {
        let i = choose|i: int| 0 <= i < (x + y).len() && (x + y)[i] == c;
        if i < x.len() {
            assert(x[i] == c);
        } else {
            assert(y[i - x.len()] == c);
        }
    }
}

proof fn lemma_rank_piece(weight: u8, bit: nat, letter: char, c: char)
    ensures
        rank_piece(weight, bit, letter).contains(c) <==> has_rank(weight, bit) && c == letter,
{
    if has_rank(weight, bit) {
        assert(seq![letter][0] == letter);
    }
}

/// A label holds the letter of a rank exactly where the weight has its bit.
pub proof fn lemma_rank_letters(weight: u8, c: char)
    ensures
        rank_letters(weight).contains(c) <==> (c == 'A' && has_rank(weight, 3)) || (c == 'B'
            && has_rank(weight, 2)) || (c == 'C' && has_rank(weight, 1)) || (c == 'D' && has_rank(
            weight,
            0,
        )),
{
    let a = rank_piece(weight, 3, 'A');
    let b = rank_piece(weight, 2, 'B');
    let cc = rank_piece(weight, 1, 'C');
    let d = rank_piece(weight, 0, 'D');
    lemma_rank_piece(weight, 3, 'A', c);
    lemma_rank_piece(weight, 2, 'B', c);
    lemma_rank_piece(weight, 1, 'C', c);
    lemma_rank_piece(weight, 0, 'D', c);
    lemma_contains_concat(a, b, c);
    lemma_contains_concat(a + b, cc, c);
    lemma_contains_concat(a + b + cc, d, c);
}

/// Different weights within four bits have different labels.
pub proof fn lemma_weight_label_injective(a: u8, b: u8)
    requires
        a <= 15,
        b <= 15,
        weight_label(a) == weight_label(b),
    ensures
        a == b,
{
    if a != 0 && b != 0 {
        lemma_rank_letters(a, 'A');
        lemma_rank_letters(b, 'A');
        lemma_rank_letters(a, 'B');
        lemma_rank_letters(b, 'B');
        lemma_rank_letters(a, 'C');
        lemma_rank_letters(b, 'C');
        lemma_rank_letters(a, 'D');
        lemma_rank_letters(b, 'D');
        assert(has_rank(a, 3) == has_rank(b, 3));
        assert(has_rank(a, 2) == has_rank(b, 2));
        assert(has_rank(a, 1) == has_rank(b, 1));
        assert(has_rank(a, 0) == has_rank(b, 0));
    }
}

} // verus!
