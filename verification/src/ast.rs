use vstd::prelude::*;

verus! {

// ---------------------------------------------------------------------------
// Identity generation
//
// `Complement` and `Verb` values compare by identity, not by structure: two
// such values are equal exactly when they are the same node.  Identity is
// modelled as an index handed out by a generator, so a node made later can
// never collide with one made earlier from the same generator.
// ---------------------------------------------------------------------------

/// Hands out one identity after another for nodes whose equality is
/// identity-based (`Complement` and `Verb`).
pub struct IdGen {
    next: u64,
}

impl IdGen {
    /// The identity the next `fresh` call will return.
    pub closed spec fn spec_next(&self) -> u64 {
        self.next
    }

    pub fn new() -> (r: IdGen)
        ensures
            r.spec_next() == 0,
    {
        IdGen { next: 0 }
    }

    pub fn fresh(&mut self) -> (r: u64)
        requires
            old(self).spec_next() < u64::MAX,
        ensures
            r == old(self).spec_next(),
            final(self).spec_next() == old(self).spec_next() + 1,
    {
        let id = self.next;
        self.next = self.next + 1;
        id
    }
}

// ---------------------------------------------------------------------------
// Mathematical model
// ---------------------------------------------------------------------------

/// Model of a number literal: the sign and the digit runs of the whole,
/// fractional and exponent parts, exactly as they stood in the input.
/// The floating-point magnitude they denote is computed by the consumer
/// of the library; the model keeps the exact digits.
pub struct SpecNumber {
    pub negative: bool,
    pub whole: Seq<char>,
    pub frac: Option<Seq<char>>,
    pub exp: Option<Seq<char>>,
}

/// Model of a `Value`: the same tree with text as character sequences and
/// identities as unbounded integers.
#[verifier::ext_equal]
pub enum SpecValue {
    Nil,
    Word(Seq<char>),
    Complement(int, Box<SpecValue>, Box<SpecValue>),
    Verb(int, Option<Seq<char>>),
    Number(SpecNumber),
    Sequence(Seq<SpecValue>),
}

// ---------------------------------------------------------------------------
// The value data model
// ---------------------------------------------------------------------------

/// A series of letters or phonemes or something.
pub struct Word(pub String);

/// An ordered pair of a value and its complement.
pub struct Pair<T, U> {
    pub head: T,
    pub tail: U,
}

pub type Complement = Pair<Value, Value>;

/// A parsed number literal.  Equality is component-wise on the parsed
/// parts; the floating-point reading of the digits is left to the consumer,
/// since this library holds no floating-point arithmetic.
pub struct NumberLit {
    pub negative: bool,
    pub whole: String,
    pub frac: Option<String>,
    pub exp: Option<String>,
}

/// An operation which can be performed on an object.  The core constructs
/// no verbs; the capability is declared for users of the library to
/// implement.
pub trait Verb {
    fn apply(&self, complement: Value) -> Value;
    fn name(&self) -> Option<Word>;
}

/// The single recursive sum type produced by parsing.
pub enum Value {
    /// The empty `Value`.
    Nil,
    /// An atomic text token.
    Word(Word),
    /// A pair of a `Value` and its complement; the first field is its
    /// identity.
    Complement(u64, Box<Complement>),
    /// An opaque named operation: its identity and its optional display
    /// name.
    Verb(u64, Option<Word>),
    /// A number literal, kept as its parsed parts.
    Number(NumberLit),
    /// An ordered list of values.
    Sequence(Vec<Value>),
}

pub open spec fn opt_str_view(o: Option<String>) -> Option<Seq<char>> {
    match o {
        Option::Some(t) => Option::Some(t@),
        Option::None => Option::None,
    }
}

impl View for NumberLit {
    type V = SpecNumber;

    open spec fn view(&self) -> SpecNumber {
        SpecNumber {
            negative: self.negative,
            whole: self.whole@,
            frac: opt_str_view(self.frac),
            exp: opt_str_view(self.exp),
        }
    }
}

pub open spec fn value_view(v: Value) -> SpecValue
    decreases v,
{
    match v {
        Value::Nil => SpecValue::Nil,
        Value::Word(w) => SpecValue::Word(w.0@),
        Value::Complement(id, p) => SpecValue::Complement(
            id as int,
            Box::new(value_view(p.head)),
            Box::new(value_view(p.tail)),
        ),
        Value::Verb(id, name) => SpecValue::Verb(
            id as int,
            match name {
                Option::Some(w) => Option::Some(w.0@),
                Option::None => Option::None,
            },
        ),
        Value::Number(n) => SpecValue::Number(n@),
        Value::Sequence(items) => SpecValue::Sequence(
            Seq::new(
                items@.len(),
                |k: int|
                    if 0 <= k < items@.len() {
                        value_view(items@[k])
                    } else {
                        SpecValue::Nil
                    },
            ),
        ),
    }
}

impl View for Value {
    type V = SpecValue;

    open spec fn view(&self) -> SpecValue {
        value_view(*self)
    }
}

/// The models of a run of values, in order.
pub open spec fn vals_view(vs: Seq<Value>) -> Seq<SpecValue> {
    Seq::new(vs.len(), |k: int| value_view(vs[k]))
}

// ---------------------------------------------------------------------------
// Constructors
// ---------------------------------------------------------------------------

/// What building a complement from a head and a list of trailing parts
/// yields, together with the next free identity: no parts give back the
/// head itself, one part pairs head and part, and two or more parts pair
/// the head with one sequence of all the parts.
pub open spec fn spec_make_complement(head: SpecValue, parts: Seq<SpecValue>, n: int) -> (
    SpecValue,
    int,
) {
    if parts.len() == 0 {
        (head, n)
    } else if parts.len() == 1 {
        (SpecValue::Complement(n, Box::new(head), Box::new(parts[0])), n + 1)
    } else {
        (SpecValue::Complement(n, Box::new(head), Box::new(SpecValue::Sequence(parts))), n + 1)
    }
}

impl Value {
    pub fn make_word(word: &str) -> (r: Value)
        ensures
            r@ == SpecValue::Word(word@),
    {
        Value::Word(Word(String::from_str(word)))
    }

    /// Builds a complement per the head/tail-list rule: an empty tail list
    /// yields the head unchanged (no pair is created), a single part pairs
    /// the head with that part, and several parts pair the head with a
    /// sequence holding them all.
    pub fn make_complement(head: Value, tail: Vec<Value>, ids: &mut IdGen) -> (r: Value)
        requires
            tail@.len() >= 1 ==> old(ids).spec_next() < u64::MAX,
        ensures
            (r@, final(ids).spec_next() as int) == spec_make_complement(
                head@,
                vals_view(tail@),
                old(ids).spec_next() as int,
            ),
    {
        let mut tail = tail;
        if tail.len() == 0 {
            head
        } else if tail.len() == 1 {
            let t = tail.remove(0);
            let id = ids.fresh();
            proof {
                assert(value_view(t) == vals_view(tail@.insert(0, t))[0]);
            }
            Value::Complement(id, Box::new(Pair { head, tail: t }))
        } else {
            let t = Value::make_sequence(tail);
            let id = ids.fresh();
            Value::Complement(id, Box::new(Pair { head, tail: t }))
        }
    }

    /// Wraps a list of values as a sequence value, as-is: no deduplication,
    /// no sorting.
    pub fn make_sequence(contents: Vec<Value>) -> (r: Value)
        ensures
            r@ == SpecValue::Sequence(vals_view(contents@)),
    {
        let ghost cs = contents@;
        let r = Value::Sequence(contents);
        proof {
            assert(r@->Sequence_0 =~= vals_view(cs));
            assert(r@ =~~= SpecValue::Sequence(vals_view(cs)));
        }
        r
    }
}

// ---------------------------------------------------------------------------
// Equality
//
// Word and Number values compare structurally; Complement and Verb values
// compare by identity alone; every other combination, Sequence against
// anything (itself included) and Nil against Nil among them, is unequal.
// ---------------------------------------------------------------------------

pub open spec fn spec_eq_number(a: SpecNumber, b: SpecNumber) -> bool {
    &&& a.negative == b.negative
    &&& a.whole == b.whole
    &&& a.frac == b.frac
    &&& a.exp == b.exp
}

/// The equality rule of the value model.
pub open spec fn spec_eq_value(a: SpecValue, b: SpecValue) -> bool {
    match (a, b) {
        (SpecValue::Word(x), SpecValue::Word(y)) => x == y,
        (SpecValue::Complement(i, _, _), SpecValue::Complement(j, _, _)) => i == j,
        (SpecValue::Verb(i, _), SpecValue::Verb(j, _)) => i == j,
        (SpecValue::Number(x), SpecValue::Number(y)) => spec_eq_number(x, y),
        _ => false,
    }
}

impl PartialEq for Word {
    fn eq(&self, other: &Word) -> (r: bool) {
        self.0 == other.0
    }
}

impl vstd::std_specs::cmp::PartialEqSpecImpl for Word {
    open spec fn obeys_eq_spec() -> bool {
        true
    }

    open spec fn eq_spec(&self, other: &Word) -> bool {
        self.0@ == other.0@
    }
}

fn opt_string_eq(a: &Option<String>, b: &Option<String>) -> (r: bool)
    ensures
        r == (opt_str_view(*a) == opt_str_view(*b)),
{
    match (a, b) {
        (Option::Some(x), Option::Some(y)) => *x == *y,
        (Option::None, Option::None) => true,
        _ => false,
    }
}

impl PartialEq for NumberLit {
    fn eq(&self, other: &NumberLit) -> (r: bool) {
        self.negative == other.negative && self.whole == other.whole && opt_string_eq(
            &self.frac,
            &other.frac,
        ) && opt_string_eq(&self.exp, &other.exp)
    }
}

impl vstd::std_specs::cmp::PartialEqSpecImpl for NumberLit {
    open spec fn obeys_eq_spec() -> bool {
        true
    }

    open spec fn eq_spec(&self, other: &NumberLit) -> bool {
        spec_eq_number(self@, other@)
    }
}

impl PartialEq for Value {
    fn eq(&self, other: &Value) -> (r: bool) {
        match (self, other) {
            (Value::Word(a), Value::Word(b)) => a.0 == b.0,
            (Value::Complement(i, _), Value::Complement(j, _)) => *i == *j,
            (Value::Verb(i, _), Value::Verb(j, _)) => *i == *j,
            (Value::Number(a), Value::Number(b)) => a == b,
            _ => false,
        }
    }
}

impl vstd::std_specs::cmp::PartialEqSpecImpl for Value {
    open spec fn obeys_eq_spec() -> bool {
        true
    }

    open spec fn eq_spec(&self, other: &Value) -> bool {
        spec_eq_value(self@, other@)
    }
}

// ---------------------------------------------------------------------------
// Laws of the equality rule and of complement construction
// ---------------------------------------------------------------------------

/// Two sequence values are never equal, even when built from identical
/// contents, and even when one is compared with itself.
pub proof fn lemma_sequence_never_equal(a: SpecValue, b: SpecValue)
    requires
        a is Sequence || b is Sequence,
    ensures
        !spec_eq_value(a, b),
{
}

/// Complement equality is identity alone: complements with distinct
/// identities are unequal whatever their heads and tails, and a complement
/// is equal to itself.
pub proof fn lemma_complement_identity(h: SpecValue, t: Seq<SpecValue>, n1: int, n2: int)
    requires
        t.len() >= 1,
        n1 != n2,
    ensures
        !spec_eq_value(
            spec_make_complement(h, t, n1).0,
            spec_make_complement(h, t, n2).0,
        ),
        spec_eq_value(
            spec_make_complement(h, t, n1).0,
            spec_make_complement(h, t, n1).0,
        ),
{
}

/// A complement with no trailing parts is the head itself: no pair is
/// created and no identity is spent.
pub proof fn lemma_complement_empty_tail(h: SpecValue, n: int)
    ensures
        spec_make_complement(h, Seq::<SpecValue>::empty(), n) == ((h, n)),
{
}

/// A complement with exactly one trailing part pairs the head with that
/// part; with two or more it pairs the head with a single sequence of all
/// the parts, not a chain of nested pairs.
pub proof fn lemma_complement_tail_shape(h: SpecValue, t: Seq<SpecValue>, n: int)
    requires
        t.len() >= 1,
    ensures
        t.len() == 1 ==> spec_make_complement(h, t, n).0 == SpecValue::Complement(
            n,
            Box::new(h),
            Box::new(t[0]),
        ),
        t.len() >= 2 ==> spec_make_complement(h, t, n).0 == SpecValue::Complement(
            n,
            Box::new(h),
            Box::new(SpecValue::Sequence(t)),
        ),
{
}

} // verus!
