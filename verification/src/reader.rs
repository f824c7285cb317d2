use crate::ast::{IdGen, SpecValue, Value, vals_view, value_view};
use crate::parser::{spec_value_line, value_line};
use vstd::prelude::*;
use vstd::string::StrSliceExecFns;
use vstd::string::StringExecFns;

verus! {

/// The reported error conditions of the line reader.
pub enum ReaderError {
    /// The grammar matched, but text remained on the line after the
    /// matched value; carries the unconsumed text.
    TooMuchInput { line: String },
    /// The line source is exhausted: expected termination, not a fault.
    Eof,
}

/// Reads one value per line from a source of text lines.
///
/// A line on which the grammar matches nothing at all cannot be read at
/// all: the failure is unrecoverable rather than reported, so such lines
/// are excluded by precondition, and a caller that cannot know its lines
/// in advance tests each with `line_matches` first and treats a mismatch
/// as fatal.
pub struct ConlangReader {
    lines: Vec<String>,
    pos: usize,
    ids: IdGen,
}

impl ConlangReader {
    /// The lines of the source.
    pub closed spec fn spec_lines(&self) -> Seq<Seq<char>> {
        self.lines.deep_view()
    }

    /// How many lines have been consumed.
    pub closed spec fn spec_pos(&self) -> int {
        self.pos as int
    }

    /// The next free identity.
    pub closed spec fn spec_ids(&self) -> int {
        self.ids.spec_next() as int
    }

    pub fn new(lines: Vec<String>) -> (r: ConlangReader)
        ensures
            r.spec_lines() == lines.deep_view(),
            r.spec_pos() == 0,
            r.spec_ids() == 0,
    {
        ConlangReader { lines, pos: 0, ids: IdGen::new() }
    }

    /// Pulls exactly one line and parses it as a value with an optional
    /// trailing `.`: end-of-input when no line remains; the value when the
    /// line was wholly consumed; otherwise the leftover text, reported.
    /// One line is consumed in every case but end-of-input.
    pub fn parse_next(&mut self) -> (r: Result<Value, ReaderError>)
        requires
            old(self).spec_pos() < old(self).spec_lines().len() ==> {
                let l = old(self).spec_lines()[old(self).spec_pos()];
                &&& spec_value_line(l, old(self).spec_ids()) is Some
                &&& old(self).spec_ids() + l.len() < u64::MAX
            },
        ensures
            final(self).spec_lines() == old(self).spec_lines(),
            old(self).spec_pos() >= old(self).spec_lines().len() ==> {
                &&& r matches Err(ReaderError::Eof)
                &&& final(self).spec_pos() == old(self).spec_pos()
                &&& final(self).spec_ids() == old(self).spec_ids()
            },
            old(self).spec_pos() < old(self).spec_lines().len() ==> {
                let l = old(self).spec_lines()[old(self).spec_pos()];
                let (v, j, n1) = spec_value_line(l, old(self).spec_ids())->Some_0;
                &&& final(self).spec_pos() == old(self).spec_pos() + 1
                &&& final(self).spec_ids() == n1
                &&& if j == l.len() {
                    r matches Ok(rv) && rv@ == v
                } else {
                    r matches Err(ReaderError::TooMuchInput { line }) && line@ == l.subrange(
                        j,
                        l.len() as int,
                    )
                }
            },
    {
        if self.pos < self.lines.len() {
            let line = self.lines[self.pos].clone();
            self.pos = self.pos + 1;
            let parsed = value_line(line.as_str(), &mut self.ids);
            match parsed {
                Option::Some((v, j)) => {
                    let len = line.as_str().unicode_len();
                    if j == len {
                        Ok(v)
                    } else {
                        let rest = String::from_str(line.as_str().substring_char(j, len));
                        Err(ReaderError::TooMuchInput { line: rest })
                    }
                },
                Option::None => vstd::pervasive::unreached(),
            }
        } else {
            Err(ReaderError::Eof)
        }
    }

    /// `parse_next` as a pull step: a value while lines parse wholly, and
    /// nothing from the first reported condition on.
    pub fn next(&mut self) -> (r: Option<Value>)
        requires
            old(self).spec_pos() < old(self).spec_lines().len() ==> {
                let l = old(self).spec_lines()[old(self).spec_pos()];
                &&& spec_value_line(l, old(self).spec_ids()) is Some
                &&& old(self).spec_ids() + l.len() < u64::MAX
            },
        ensures
            final(self).spec_lines() == old(self).spec_lines(),
            old(self).spec_pos() >= old(self).spec_lines().len() ==> {
                &&& r is None
                &&& final(self).spec_pos() == old(self).spec_pos()
                &&& final(self).spec_ids() == old(self).spec_ids()
            },
            old(self).spec_pos() < old(self).spec_lines().len() ==> {
                let l = old(self).spec_lines()[old(self).spec_pos()];
                let (v, j, n1) = spec_value_line(l, old(self).spec_ids())->Some_0;
                &&& final(self).spec_pos() == old(self).spec_pos() + 1
                &&& final(self).spec_ids() == n1
                &&& if j == l.len() {
                    r matches Some(rv) && rv@ == v
                } else {
                    r is None
                }
            },
    {
        match self.parse_next() {
            Ok(v) => Option::Some(v),
            Err(_) => Option::None,
        }
    }
}

/// Whether a whole run of the reader from line `k` with next identity `n`
/// meets the reader's demands: every line reached before the run stops
/// matches the grammar (a non-matching line would end the process, not the
/// run) and stays within the identity budget.  Lines after the first not
/// wholly consumed are never reached.
pub open spec fn spec_reader_ok(lines: Seq<Seq<char>>, k: int, n: int) -> bool
    decreases lines.len() - k
        when 0 <= k <= lines.len()
{
    k < lines.len() ==> {
        &&& n + lines[k].len() < u64::MAX
        &&& spec_value_line(lines[k], n) is Some
        &&& {
            let (v, j, n1) = spec_value_line(lines[k], n)->Some_0;
            j == lines[k].len() ==> spec_reader_ok(lines, k + 1, n1)
        }
    }
}

/// The values the reader yields from line `k` on with next identity `n`:
/// one value per wholly consumed line, in order, ending at the first line
/// left over (nothing is yielded for it) or at the end of the lines.
pub open spec fn spec_reader_values(lines: Seq<Seq<char>>, k: int, n: int) -> Seq<SpecValue>
    decreases lines.len() - k
        when 0 <= k <= lines.len()
{
    if k >= lines.len() {
        Seq::<SpecValue>::empty()
    } else {
        match spec_value_line(lines[k], n) {
            Option::Some((v, j, n1)) => if j == lines[k].len() {
                seq![v] + spec_reader_values(lines, k + 1, n1)
            } else {
                Seq::<SpecValue>::empty()
            },
            Option::None => Seq::<SpecValue>::empty(),
        }
    }
}

/// Pulls values from the reader until it reports a condition, and hands
/// back all the values of the wholly consumed lines, in order, for the
/// consumer to render one per line.
pub fn repl(reader: &mut ConlangReader) -> (r: Vec<Value>)
    requires
        0 <= old(reader).spec_pos() <= old(reader).spec_lines().len(),
        spec_reader_ok(old(reader).spec_lines(), old(reader).spec_pos(), old(reader).spec_ids()),
    ensures
        vals_view(r@) == spec_reader_values(
            old(reader).spec_lines(),
            old(reader).spec_pos(),
            old(reader).spec_ids(),
        ),
{
    let ghost lines0 = reader.spec_lines();
    let ghost p0 = reader.spec_pos();
    let ghost n0 = reader.spec_ids();
    let mut out: Vec<Value> = Vec::new();
    proof {
        assert(vals_view(out@) =~= Seq::<SpecValue>::empty());
    }
    loop
        invariant
            lines0 == old(reader).spec_lines(),
            p0 == old(reader).spec_pos(),
            n0 == old(reader).spec_ids(),
            reader.spec_lines() == lines0,
            p0 <= reader.spec_pos() <= lines0.len(),
            spec_reader_ok(lines0, reader.spec_pos(), reader.spec_ids()),
            vals_view(out@) + spec_reader_values(lines0, reader.spec_pos(), reader.spec_ids())
                == spec_reader_values(lines0, p0, n0),
        decreases lines0.len() - reader.spec_pos(),
    {
        let ghost p = reader.spec_pos();
        let ghost n = reader.spec_ids();
        let ghost out0 = out@;
        match reader.parse_next() {
            Ok(v) => {
                out.push(v);
                proof {
                    assert(vals_view(out@) =~= vals_view(out0) + seq![value_view(v)]);
                    assert(spec_reader_values(lines0, p, n) == seq![value_view(v)]
                        + spec_reader_values(lines0, reader.spec_pos(), reader.spec_ids()));
                    assert(vals_view(out@) + spec_reader_values(
                        lines0,
                        reader.spec_pos(),
                        reader.spec_ids(),
                    ) =~= spec_reader_values(lines0, p0, n0));
                }
            },
            Err(_) => {
                proof {
                    assert(spec_reader_values(lines0, p, n) =~= Seq::<SpecValue>::empty());
                    assert(vals_view(out@) =~= spec_reader_values(lines0, p0, n0));
                }
                return out;
            },
        }
    }
}

} // verus!
