use crate::ast::{IdGen, NumberLit, SpecNumber, SpecValue, Value, opt_str_view, spec_make_complement, vals_view, value_view};
use vstd::prelude::*;
use vstd::string::StrSliceExecFns;
use vstd::string::StringExecFns;

verus! {

// ---------------------------------------------------------------------------
// Character classes
// ---------------------------------------------------------------------------

/// The characters that end a word token.
pub open spec fn is_terminator_char(c: char) -> bool {
    ||| c == '.'
    ||| c == ':'
    ||| c == ','
    ||| c == ' '
    ||| c == '\t'
    ||| c == '\n'
    ||| c == ')'
    ||| c == ']'
    ||| c == '}'
    ||| c == '"'
    ||| c == '\''
}

pub open spec fn is_digit_char(c: char) -> bool {
    '0' <= c && c <= '9'
}

/// The whitespace discarded around a sequence delimiter.
pub open spec fn is_space_char(c: char) -> bool {
    c == ' ' || c == '\t' || c == '\n'
}

fn is_terminator(c: char) -> (r: bool)
    ensures
        r == is_terminator_char(c),
{
    c == '.' || c == ':' || c == ',' || c == ' ' || c == '\t' || c == '\n' || c == ')' || c == ']'
        || c == '}' || c == '"' || c == '\''
}

// ---------------------------------------------------------------------------
// Scanners: the end of a run of characters of one class
// ---------------------------------------------------------------------------

/// The position of the first terminator at or after `i`, or the end of the
/// input if none follows.
pub open spec fn word_end(s: Seq<char>, i: int) -> int
    decreases s.len() - i
        when 0 <= i <= s.len()
{
    if i == s.len() || is_terminator_char(s[i]) {
        i
    } else {
        word_end(s, i + 1)
    }
}

/// The position of the first non-digit at or after `i`, or the end of the
/// input if none follows.
pub open spec fn digits_end(s: Seq<char>, i: int) -> int
    decreases s.len() - i
        when 0 <= i <= s.len()
{
    if i == s.len() || !is_digit_char(s[i]) {
        i
    } else {
        digits_end(s, i + 1)
    }
}

/// The position of the first non-whitespace character at or after `i`, or
/// the end of the input if none follows.
pub open spec fn space_end(s: Seq<char>, i: int) -> int
    decreases s.len() - i
        when 0 <= i <= s.len()
{
    if i == s.len() || !is_space_char(s[i]) {
        i
    } else {
        space_end(s, i + 1)
    }
}

fn scan_word(s: &str, i: usize) -> (j: usize)
    requires
        i <= s@.len(),
    ensures
        j == word_end(s@, i as int),
        i <= j <= s@.len(),
    decreases s@.len() - i,
{
    if i < s.unicode_len() && !is_terminator(s.get_char(i)) {
        scan_word(s, i + 1)
    } else {
        i
    }
}

fn scan_digits(s: &str, i: usize) -> (j: usize)
    requires
        i <= s@.len(),
    ensures
        j == digits_end(s@, i as int),
        i <= j <= s@.len(),
    decreases s@.len() - i,
{
    if i < s.unicode_len() && { let c = s.get_char(i); '0' <= c && c <= '9' } {
        scan_digits(s, i + 1)
    } else {
        i
    }
}

fn scan_space(s: &str, i: usize) -> (j: usize)
    requires
        i <= s@.len(),
    ensures
        j == space_end(s@, i as int),
        i <= j <= s@.len(),
    decreases s@.len() - i,
{
    if i < s.unicode_len() && { let c = s.get_char(i); c == ' ' || c == '\t' || c == '\n' } {
        scan_space(s, i + 1)
    } else {
        i
    }
}

// ---------------------------------------------------------------------------
// Number literals
//
// Grammar: [sign] digits ['.' digits] [('e'|'E') digits], where digits is
// one or more decimal digits.  The parts are kept as the digit runs found
// in the input.
// ---------------------------------------------------------------------------

/// The sign, if any, at `i`: whether it was `-`, and the position after it.
pub open spec fn spec_sign(s: Seq<char>, i: int) -> (bool, int) {
    if i < s.len() && s[i] == '-' {
        (true, i + 1)
    } else if i < s.len() && s[i] == '+' {
        (false, i + 1)
    } else {
        (false, i)
    }
}

/// The fractional part, if a `.` followed by at least one digit stands at
/// `i`; otherwise nothing is consumed.
pub open spec fn spec_frac(s: Seq<char>, i: int) -> (Option<Seq<char>>, int) {
    if i < s.len() && s[i] == '.' {
        let j = digits_end(s, i + 1);
        if i + 1 < j {
            (Option::Some(s.subrange(i + 1, j)), j)
        } else {
            (Option::None, i)
        }
    } else {
        (Option::None, i)
    }
}

/// The exponent part, if an `e` or `E` followed by at least one digit
/// stands at `i`; otherwise nothing is consumed.  The grammar has no
/// exponent sign.
pub open spec fn spec_exp(s: Seq<char>, i: int) -> (Option<Seq<char>>, int) {
    if i < s.len() && (s[i] == 'e' || s[i] == 'E') {
        let j = digits_end(s, i + 1);
        if i + 1 < j {
            (Option::Some(s.subrange(i + 1, j)), j)
        } else {
            (Option::None, i)
        }
    } else {
        (Option::None, i)
    }
}

/// What the number parser yields at `i`: the parsed parts and the position
/// after them, or nothing when no digit run starts the literal.
pub open spec fn spec_number(s: Seq<char>, i: int) -> Option<(SpecNumber, int)> {
    let (neg, i1) = spec_sign(s, i);
    let j = digits_end(s, i1);
    if i1 < j {
        let (fr, j2) = spec_frac(s, j);
        let (ex, j3) = spec_exp(s, j2);
        Option::Some(
            (SpecNumber { negative: neg, whole: s.subrange(i1, j), frac: fr, exp: ex }, j3),
        )
    } else {
        Option::None
    }
}

fn frac_part(s: &str, i: usize) -> (r: (Option<String>, usize))
    requires
        i <= s@.len(),
    ensures
        (opt_str_view(r.0), r.1 as int) == spec_frac(s@, i as int),
        i <= r.1 <= s@.len(),
{
    if i < s.unicode_len() && s.get_char(i) == '.' {
        let j = scan_digits(s, i + 1);
        if i + 1 < j {
            (Option::Some(String::from_str(s.substring_char(i + 1, j))), j)
        } else {
            (Option::None, i)
        }
    } else {
        (Option::None, i)
    }
}

fn exp_part(s: &str, i: usize) -> (r: (Option<String>, usize))
    requires
        i <= s@.len(),
    ensures
        (opt_str_view(r.0), r.1 as int) == spec_exp(s@, i as int),
        i <= r.1 <= s@.len(),
{
    if i < s.unicode_len() && { let c = s.get_char(i); c == 'e' || c == 'E' } {
        let j = scan_digits(s, i + 1);
        if i + 1 < j {
            (Option::Some(String::from_str(s.substring_char(i + 1, j))), j)
        } else {
            (Option::None, i)
        }
    } else {
        (Option::None, i)
    }
}

/// Parses a number literal at `i`.
pub fn number(s: &str, i: usize) -> (r: Option<(NumberLit, usize)>)
    requires
        i <= s@.len(),
    ensures
        match r {
            Option::Some((num, j)) => {
                &&& spec_number(s@, i as int) == Option::Some((num@, j as int))
                &&& i < j <= s@.len()
            },
            Option::None => spec_number(s@, i as int) is None,
        },
{
    let len = s.unicode_len();
    let mut neg = false;
    let mut i1 = i;
    if i < len {
        let c = s.get_char(i);
        if c == '-' {
            neg = true;
            i1 = i + 1;
        } else if c == '+' {
            i1 = i + 1;
        }
    }
    let j = scan_digits(s, i1);
    if i1 < j {
        let whole = String::from_str(s.substring_char(i1, j));
        let (fr, j2) = frac_part(s, j);
        let (ex, j3) = exp_part(s, j2);
        Option::Some((NumberLit { negative: neg, whole, frac: fr, exp: ex }, j3))
    } else {
        Option::None
    }
}

// ---------------------------------------------------------------------------
// Word tokens
// ---------------------------------------------------------------------------

/// What the word-token scanner yields at `i`: the maximal non-empty run of
/// non-terminator characters and the position after it, or nothing when a
/// terminator (or the end of the line) stands at `i`.
pub open spec fn spec_word_str(s: Seq<char>, i: int) -> Option<(Seq<char>, int)> {
    let j = word_end(s, i);
    if i < j {
        Option::Some((s.subrange(i, j), j))
    } else {
        Option::None
    }
}

/// Parses a word token at `i` into a word value.
pub fn word(s: &str, i: usize) -> (r: Option<(Value, usize)>)
    requires
        i <= s@.len(),
    ensures
        match r {
            Option::Some((v, j)) => {
                &&& spec_word_str(s@, i as int) == Option::Some(
                    (s@.subrange(i as int, j as int), j as int),
                )
                &&& v@ == SpecValue::Word(s@.subrange(i as int, j as int))
                &&& i < j <= s@.len()
            },
            Option::None => spec_word_str(s@, i as int) is None,
        },
{
    let j = scan_word(s, i);
    if i < j {
        let t = s.substring_char(i, j);
        Option::Some((Value::make_word(t), j))
    } else {
        Option::None
    }
}

// ---------------------------------------------------------------------------
// Prefix matching for complement repetitions
// ---------------------------------------------------------------------------

/// Whether `prefix` stands verbatim in `s` at position `i`.
pub open spec fn prefix_matches(s: Seq<char>, i: int, prefix: Seq<char>) -> bool {
    &&& i + prefix.len() <= s.len()
    &&& forall|k: int| 0 <= k < prefix.len() ==> s[i + k] == #[trigger] prefix[k]
}

fn match_prefix(s: &str, i: usize, pa: usize, pb: usize) -> (r: bool)
    requires
        s@.len() <= usize::MAX,
        pa <= pb <= s@.len(),
        i + (pb - pa) <= s@.len(),
    ensures
        r == prefix_matches(s@, i as int, s@.subrange(pa as int, pb as int)),
    decreases pb - pa,
{
    let ghost pfx = s@.subrange(pa as int, pb as int);
    if pa == pb {
        proof {
            assert(prefix_matches(s@, i as int, pfx));
        }
        true
    } else {
        let ca = s.get_char(i);
        let cb = s.get_char(pa);
        if ca == cb {
            let r2 = match_prefix(s, i + 1, pa + 1, pb);
            proof {
                let sub = s@.subrange(pa + 1 as int, pb as int);
                if r2 {
                    assert forall|k: int| 0 <= k < pfx.len() implies s@[i + k] == #[trigger] pfx[k] by {
                        if k > 0 {
                            assert(sub[k - 1] == s@[pa + k]);
                            assert(s@[i + 1 + (k - 1)] == sub[k - 1]);
                        }
                    }
                } else {
                    let bad = choose|k: int|
                        0 <= k < sub.len() && s@[i + 1 + k] != #[trigger] sub[k];
                    assert(pfx[bad + 1] == s@[pa + 1 + bad]);
                    assert(!prefix_matches(s@, i as int, pfx));
                }
            }
            r2
        } else {
            proof {
                assert(pfx[0] == s@[pa as int]);
                assert(!prefix_matches(s@, i as int, pfx));
            }
            false
        }
    }
}

// ---------------------------------------------------------------------------
// The recursive grammar
//
// A value is the first alternative that matches, tried in this order:
// complement, sequence, number, word.  Each alternative consumes at least
// one character before recursing, which bounds the recursion.  The `n`
// argument threads the next free identity through the grammar; only the
// construction of a complement pair spends one.
// ---------------------------------------------------------------------------

/// What the value dispatcher yields at `i` with next identity `n`: the
/// value, the position after it and the next free identity.
pub open spec fn spec_value(s: Seq<char>, i: int, n: int) -> Option<(SpecValue, int, int)>
    decreases s.len() - i, 1int
        when 0 <= i <= s.len()
{
    match spec_complement(s, i, n) {
        Option::Some(r) => Option::Some(r),
        Option::None => match spec_sequence(s, i, n) {
            Option::Some(r) => Option::Some(r),
            Option::None => match spec_number(s, i) {
                Option::Some((num, j)) => Option::Some((SpecValue::Number(num), j, n)),
                Option::None => match spec_word_str(s, i) {
                    Option::Some((w, j)) => Option::Some((SpecValue::Word(w), j, n)),
                    Option::None => Option::None,
                },
            },
        },
    }
}

/// What the complement parser yields at `i`: a word prefix, a `:`, a head
/// value, then any run of `prefix:value` repetitions with the same prefix
/// verbatim and no padding between them; the result follows the
/// head/tail-list rule.  With no repetitions the head alone is yielded and
/// the prefix is discarded.
pub open spec fn spec_complement(s: Seq<char>, i: int, n: int) -> Option<(SpecValue, int, int)>
    decreases s.len() - i, 0int
        when 0 <= i <= s.len()
{
    let j = word_end(s, i);
    if i < j && j < s.len() && s[j] == ':' {
        match spec_value(s, j + 1, n) {
            Option::Some((head, k, n1)) => if j + 1 < k <= s.len() {
                let (parts, m, n2) = spec_comp_parts(s, k, n1, s.subrange(i, j));
                let (v, n3) = spec_make_complement(head, parts, n2);
                Option::Some((v, m, n3))
            } else {
                Option::None
            },
            Option::None => Option::None,
        }
    } else {
        Option::None
    }
}

/// The run of `prefix:value` repetitions starting at `i`: the values, the
/// position after the run and the next free identity.  The run may be
/// empty; a repetition whose value fails ends the run with nothing more
/// consumed.
pub open spec fn spec_comp_parts(s: Seq<char>, i: int, n: int, prefix: Seq<char>) -> (
    Seq<SpecValue>,
    int,
    int,
)
    decreases s.len() - i, 0int
        when 0 <= i <= s.len()
{
    let p = i + prefix.len();
    if prefix.len() >= 1 && p < s.len() && prefix_matches(s, i, prefix) && s[p] == ':' {
        match spec_value(s, p + 1, n) {
            Option::Some((v, j, n1)) => if p + 1 < j <= s.len() {
                let (rest, m, n2) = spec_comp_parts(s, j, n1, prefix);
                (seq![v] + rest, m, n2)
            } else {
                (Seq::<SpecValue>::empty(), i, n)
            },
            Option::None => (Seq::<SpecValue>::empty(), i, n),
        }
    } else {
        (Seq::<SpecValue>::empty(), i, n)
    }
}

/// What the sequence parser yields at `i`: a delimiter character (`,` or
/// `;`) with its trailing whitespace discarded, then one or more values
/// separated by that same delimiter.  A different delimiter ends the
/// sequence at that point, the remainder left unconsumed.
pub open spec fn spec_sequence(s: Seq<char>, i: int, n: int) -> Option<(SpecValue, int, int)>
    decreases s.len() - i, 0int
        when 0 <= i <= s.len()
{
    if i < s.len() && (s[i] == ',' || s[i] == ';') {
        let d = s[i];
        let i1 = space_end(s, i + 1);
        if i < i1 && i1 <= s.len() {
            match spec_value(s, i1, n) {
                Option::Some((v, j, n1)) => if i1 < j <= s.len() {
                    let (items, m, n2) = spec_seq_rest(s, j, n1, d);
                    Option::Some((SpecValue::Sequence(seq![v] + items), m, n2))
                } else {
                    Option::None
                },
                Option::None => Option::None,
            }
        } else {
            Option::None
        }
    } else {
        Option::None
    }
}

/// The run of `delimiter value` repetitions starting at `i`, the delimiter
/// being the one character `d` with its trailing whitespace discarded.  A
/// delimiter not followed by a value ends the run before that delimiter.
pub open spec fn spec_seq_rest(s: Seq<char>, i: int, n: int, d: char) -> (Seq<SpecValue>, int, int)
    decreases s.len() - i, 0int
        when 0 <= i <= s.len()
{
    if i < s.len() && s[i] == d {
        let i1 = space_end(s, i + 1);
        if i < i1 && i1 <= s.len() {
            match spec_value(s, i1, n) {
                Option::Some((v, j, n1)) => if i1 < j <= s.len() {
                    let (rest, m, n2) = spec_seq_rest(s, j, n1, d);
                    (seq![v] + rest, m, n2)
                } else {
                    (Seq::<SpecValue>::empty(), i, n)
                },
                Option::None => (Seq::<SpecValue>::empty(), i, n),
            }
        } else {
            (Seq::<SpecValue>::empty(), i, n)
        }
    } else {
        (Seq::<SpecValue>::empty(), i, n)
    }
}

/// What a whole line yields: a value, then an optional trailing `.`, which
/// is discarded.
pub open spec fn spec_value_line(s: Seq<char>, n: int) -> Option<(SpecValue, int, int)> {
    match spec_value(s, 0, n) {
        Option::Some((v, j, n1)) => if j < s.len() && s[j] == '.' {
            Option::Some((v, j + 1, n1))
        } else {
            Option::Some((v, j, n1))
        },
        Option::None => Option::None,
    }
}

/// Parses a value at `i`: the first alternative that matches of
/// complement, sequence, number, word.
pub fn parse_value(s: &str, i: usize, ids: &mut IdGen) -> (r: Option<(Value, usize)>)
    requires
        i <= s@.len(),
        old(ids).spec_next() + s@.len() - i < u64::MAX,
    ensures
        match r {
            Option::Some((v, j)) => {
                &&& spec_value(s@, i as int, old(ids).spec_next() as int) == Option::Some(
                    (v@, j as int, final(ids).spec_next() as int),
                )
                &&& i < j <= s@.len()
                &&& old(ids).spec_next() <= final(ids).spec_next()
                &&& final(ids).spec_next() as int <= old(ids).spec_next() as int + (j - i)
            },
            Option::None => {
                &&& spec_value(s@, i as int, old(ids).spec_next() as int) is None
                &&& final(ids).spec_next() == old(ids).spec_next()
            },
        },
    decreases s@.len() - i, 1int,
{
    match parse_complement(s, i, ids) {
        Option::Some(r) => Option::Some(r),
        Option::None => match parse_sequence(s, i, ids) {
            Option::Some(r) => Option::Some(r),
            Option::None => match number(s, i) {
                Option::Some((num, j)) => Option::Some((Value::Number(num), j)),
                Option::None => match word(s, i) {
                    Option::Some((v, j)) => Option::Some((v, j)),
                    Option::None => Option::None,
                },
            },
        },
    }
}

fn parse_complement(s: &str, i: usize, ids: &mut IdGen) -> (r: Option<(Value, usize)>)
    requires
        i <= s@.len(),
        old(ids).spec_next() + s@.len() - i < u64::MAX,
    ensures
        match r {
            Option::Some((v, j)) => {
                &&& spec_complement(s@, i as int, old(ids).spec_next() as int) == Option::Some(
                    (v@, j as int, final(ids).spec_next() as int),
                )
                &&& i < j <= s@.len()
                &&& old(ids).spec_next() <= final(ids).spec_next()
                &&& final(ids).spec_next() as int <= old(ids).spec_next() as int + (j - i)
            },
            Option::None => {
                &&& spec_complement(s@, i as int, old(ids).spec_next() as int) is None
                &&& final(ids).spec_next() == old(ids).spec_next()
            },
        },
    decreases s@.len() - i, 0int,
{
    let j = scan_word(s, i);
    if i < j && j < s.unicode_len() && s.get_char(j) == ':' {
        match parse_value(s, j + 1, ids) {
            Option::Some((head, k)) => {
                let (parts, m) = parse_comp_parts(s, k, i, j, ids);
                let v = Value::make_complement(head, parts, ids);
                Option::Some((v, m))
            },
            Option::None => Option::None,
        }
    } else {
        Option::None
    }
}

fn parse_comp_parts(s: &str, i: usize, pa: usize, pb: usize, ids: &mut IdGen) -> (r: (
    Vec<Value>,
    usize,
))
    requires
        i <= s@.len(),
        pa <= pb <= s@.len(),
        old(ids).spec_next() + s@.len() - i < u64::MAX,
    ensures
        ({
            let (parts, m, n2) = spec_comp_parts(
                s@,
                i as int,
                old(ids).spec_next() as int,
                s@.subrange(pa as int, pb as int),
            );
            &&& vals_view(r.0@) == parts
            &&& r.1 as int == m
            &&& i <= r.1 <= s@.len()
            &&& final(ids).spec_next() as int == n2
            &&& old(ids).spec_next() <= final(ids).spec_next()
            &&& final(ids).spec_next() as int <= old(ids).spec_next() as int + (r.1 - i)
        }),
    decreases s@.len() - i, 0int,
{
    let len = s.unicode_len();
    let plen = pb - pa;
    if plen >= 1 && i < len && len - i > plen && match_prefix(s, i, pa, pb) && s.get_char(i + plen)
        == ':' {
        match parse_value(s, i + plen + 1, ids) {
            Option::Some((v, j)) => {
                let (mut rest, m) = parse_comp_parts(s, j, pa, pb, ids);
                let ghost rest0 = rest@;
                rest.insert(0, v);
                proof {
                    assert(vals_view(rest@) =~= seq![value_view(v)] + vals_view(rest0));
                }
                (rest, m)
            },
            Option::None => {
                let empty: Vec<Value> = Vec::new();
                proof {
                    assert(vals_view(empty@) =~= Seq::<SpecValue>::empty());
                }
                (empty, i)
            },
        }
    } else {
        let empty: Vec<Value> = Vec::new();
        proof {
            assert(vals_view(empty@) =~= Seq::<SpecValue>::empty());
        }
        (empty, i)
    }
}

fn parse_sequence(s: &str, i: usize, ids: &mut IdGen) -> (r: Option<(Value, usize)>)
    requires
        i <= s@.len(),
        old(ids).spec_next() + s@.len() - i < u64::MAX,
    ensures
        match r {
            Option::Some((v, j)) => {
                &&& spec_sequence(s@, i as int, old(ids).spec_next() as int) == Option::Some(
                    (v@, j as int, final(ids).spec_next() as int),
                )
                &&& i < j <= s@.len()
                &&& old(ids).spec_next() <= final(ids).spec_next()
                &&& final(ids).spec_next() as int <= old(ids).spec_next() as int + (j - i)
            },
            Option::None => {
                &&& spec_sequence(s@, i as int, old(ids).spec_next() as int) is None
                &&& final(ids).spec_next() == old(ids).spec_next()
            },
        },
    decreases s@.len() - i, 0int,
{
    let len = s.unicode_len();
    if i < len {
        let d = s.get_char(i);
        if d == ',' || d == ';' {
            let i1 = scan_space(s, i + 1);
            match parse_value(s, i1, ids) {
                Option::Some((v, j)) => {
                    let (mut items, m) = parse_seq_rest(s, j, d, ids);
                    let ghost items0 = items@;
                    items.insert(0, v);
                    proof {
                        assert(vals_view(items@) =~= seq![value_view(v)] + vals_view(items0));
                    }
                    let sv = Value::make_sequence(items);
                    Option::Some((sv, m))
                },
                Option::None => Option::None,
            }
        } else {
            Option::None
        }
    } else {
        Option::None
    }
}

fn parse_seq_rest(s: &str, i: usize, d: char, ids: &mut IdGen) -> (r: (Vec<Value>, usize))
    requires
        i <= s@.len(),
        old(ids).spec_next() + s@.len() - i < u64::MAX,
    ensures
        ({
            let (items, m, n2) = spec_seq_rest(s@, i as int, old(ids).spec_next() as int, d);
            &&& vals_view(r.0@) == items
            &&& r.1 as int == m
            &&& i <= r.1 <= s@.len()
            &&& final(ids).spec_next() as int == n2
            &&& old(ids).spec_next() <= final(ids).spec_next()
            &&& final(ids).spec_next() as int <= old(ids).spec_next() as int + (r.1 - i)
        }),
    decreases s@.len() - i, 0int,
{
    if i < s.unicode_len() && s.get_char(i) == d {
        let i1 = scan_space(s, i + 1);
        match parse_value(s, i1, ids) {
            Option::Some((v, j)) => {
                let (mut rest, m) = parse_seq_rest(s, j, d, ids);
                let ghost rest0 = rest@;
                rest.insert(0, v);
                proof {
                    assert(vals_view(rest@) =~= seq![value_view(v)] + vals_view(rest0));
                }
                (rest, m)
            },
            Option::None => {
                let empty: Vec<Value> = Vec::new();
                proof {
                    assert(vals_view(empty@) =~= Seq::<SpecValue>::empty());
                }
                (empty, i)
            },
        }
    } else {
        let empty: Vec<Value> = Vec::new();
        proof {
            assert(vals_view(empty@) =~= Seq::<SpecValue>::empty());
        }
        (empty, i)
    }
}

/// Parses one whole line: a value followed by an optional trailing `.`.
pub fn value_line(s: &str, ids: &mut IdGen) -> (r: Option<(Value, usize)>)
    requires
        old(ids).spec_next() + s@.len() < u64::MAX,
    ensures
        match r {
            Option::Some((v, j)) => {
                &&& spec_value_line(s@, old(ids).spec_next() as int) == Option::Some(
                    (v@, j as int, final(ids).spec_next() as int),
                )
                &&& j <= s@.len()
            },
            Option::None => {
                &&& spec_value_line(s@, old(ids).spec_next() as int) is None
                &&& final(ids).spec_next() == old(ids).spec_next()
            },
        },
{
    match parse_value(s, 0, ids) {
        Option::Some((v, j)) => {
            if j < s.unicode_len() && s.get_char(j) == '.' {
                Option::Some((v, j + 1))
            } else {
                Option::Some((v, j))
            }
        },
        Option::None => Option::None,
    }
}

/// Whether the grammar matches anything at the start of the line.  On a
/// line where it does not, the reader cannot go on at all; callers that
/// cannot know their line in advance test it with this function first.
pub fn line_matches(line: &str) -> (b: bool)
    requires
        line@.len() < u64::MAX,
    ensures
        b == (spec_value_line(line@, 0) is Some),
{
    let mut ids = IdGen::new();
    match value_line(line, &mut ids) {
        Option::Some(_) => true,
        Option::None => false,
    }
}

// ---------------------------------------------------------------------------
// Laws of the grammar
// ---------------------------------------------------------------------------

proof fn lemma_word_end_props(s: Seq<char>, i: int)
    requires
        0 <= i <= s.len(),
    ensures
        i <= word_end(s, i) <= s.len(),
        forall|k: int| i <= k < word_end(s, i) ==> !is_terminator_char(#[trigger] s[k]),
        word_end(s, i) < s.len() ==> is_terminator_char(s[word_end(s, i)]),
    decreases s.len() - i,
{
    if i < s.len() && !is_terminator_char(s[i]) {
        lemma_word_end_props(s, i + 1);
    }
}

/// A word token is a maximal non-empty run free of terminators: every
/// character in it is a non-terminator, and it stops just before the first
/// terminator, or at the end of the line when none follows.
pub proof fn lemma_word_token_stops_at_terminators(s: Seq<char>, i: int)
    requires
        0 <= i <= s.len(),
        spec_word_str(s, i) is Some,
    ensures
        ({
            let (w, j) = spec_word_str(s, i)->Some_0;
            &&& i < j <= s.len()
            &&& w == s.subrange(i, j)
            &&& forall|k: int| i <= k < j ==> !is_terminator_char(#[trigger] s[k])
            &&& j < s.len() ==> is_terminator_char(s[j])
        }),
{
    lemma_word_end_props(s, i);
}

/// One consistent delimiter: the run of further sequence elements ends as
/// soon as the next character is not the delimiter the sequence began
/// with, and nothing past that point is consumed.
pub proof fn lemma_sequence_stops_at_other_delimiter(s: Seq<char>, i: int, n: int, d: char)
    requires
        0 <= i <= s.len(),
        i == s.len() || s[i] != d,
    ensures
        spec_seq_rest(s, i, n, d) == ((Seq::<SpecValue>::empty(), i, n)),
{
}

proof fn lemma_digits_end_at(s: Seq<char>, i: int, e: int)
    requires
        0 <= i <= e <= s.len(),
        forall|k: int| i <= k < e ==> is_digit_char(#[trigger] s[k]),
        e == s.len() || !is_digit_char(s[e]),
    ensures
        digits_end(s, i) == e,
    decreases e - i,
{
    if i < e {
        lemma_digits_end_at(s, i + 1, e);
    }
}

/// Parsing any non-empty run of decimal digits followed by a space yields
/// a plain number literal holding exactly those digits: no sign, no
/// fraction, no exponent, and exactly the digits are consumed.
pub proof fn lemma_number_of_digits(d: Seq<char>)
    requires
        d.len() >= 1,
        forall|k: int| 0 <= k < d.len() ==> is_digit_char(#[trigger] d[k]),
    ensures
        spec_number(d + seq![' '], 0) == Option::Some(
            (
                SpecNumber {
                    negative: false,
                    whole: d,
                    frac: Option::None,
                    exp: Option::None,
                },
                d.len() as int,
            ),
        ),
{
    let s = d + seq![' '];
    assert forall|k: int| 0 <= k < d.len() implies is_digit_char(#[trigger] s[k]) by {
        assert(s[k] == d[k]);
    }
    lemma_digits_end_at(s, 0, d.len() as int);
    assert(s.subrange(0, d.len() as int) =~= d);
}

} // verus!
