//! Reading the VASP POSCAR and XDATCAR formats from their lines.
//!
//! A file is handed over as the lines that were read from it, and whether
//! reading stopped on an I/O error. Floating-point numbers are kept as the
//! literals that stand in the file; every one of them is checked to be a
//! literal that `str::parse::<f64>` accepts.

use vstd::prelude::*;

use crate::text::{
    chars_of, float_literal, is_float_literal, parse_usize, parsed_usize, split_ws, trim, trim_ws,
    words,
};
use crate::types::{coordinates_named, element_named, Coordinates, Element, Error, ErrorView};

verus! {

/// The lines of a file, with a cursor at the next line to read.
pub struct Lines {
    lines: Vec<String>,
    read_failed: bool,
    pos: usize,
}

/// What a [`Lines`] holds: the lines read, whether reading stopped on an I/O
/// error after them, and the index of the next line.
pub struct LinesView {
    pub lines: Seq<Seq<char>>,
    pub failed: bool,
    pub pos: int,
}

impl LinesView {
    /// The same lines, with the cursor at `p`.
    pub open spec fn at(self, p: int) -> LinesView {
        LinesView { pos: p, ..self }
    }
}

impl View for Lines {
    type V = LinesView;

    closed spec fn view(&self) -> LinesView {
        LinesView {
            lines: self.lines@.map_values(|s: String| s@),
            failed: self.read_failed,
            pos: self.pos as int,
        }
    }
}

impl Lines {
    #[verifier::type_invariant]
    spec fn cursor_in_range(self) -> bool {
        self.pos <= self.lines@.len()
    }

    /// `lines`, the cursor at the first; `read_failed` tells whether reading
    /// the file stopped on an I/O error after them.
    pub fn new(lines: Vec<String>, read_failed: bool) -> (r: Lines)
        ensures
            r@ == (LinesView { lines: lines@.map_values(|s: String| s@), failed: read_failed, pos: 0 }),
    {
        Lines { lines, read_failed, pos: 0 }
    }

    fn cursor_bound(&self)
        ensures
            0 <= self@.pos <= self@.lines.len(),
    {
        proof {
            use_type_invariant(self);
        }
    }

    /// Index of the next line, if there is one, and the cursor moved past it.
    fn fetch(&mut self) -> (r: Option<usize>)
        ensures
            final(self)@.lines == old(self)@.lines,
            final(self)@.failed == old(self)@.failed,
            old(self)@.pos < old(self)@.lines.len() ==> (r == Some(old(self).pos) && final(self)@.pos
                == old(self)@.pos + 1),
            old(self)@.pos >= old(self)@.lines.len() ==> r is None
                && final(self)@.pos == old(self)@.pos,
            0 <= old(self)@.pos <= old(self)@.lines.len(),
            r matches Some(i) ==> i < old(self).lines@.len(),
    {
        proof {
            use_type_invariant(&*self);
        }
        if self.pos < self.lines.len() {
            let i = self.pos;
            self.pos = self.pos + 1;
            Some(i)
        } else {
            None
        }
    }

    /// The next line: `None` at the end of the file, `Error::Io` where
    /// reading stopped on an I/O error.
    pub fn next_line(&mut self) -> (r: Result<Option<String>, Error>)
        ensures
            final(self)@.lines == old(self)@.lines,
            final(self)@.failed == old(self)@.failed,
            old(self)@.pos < old(self)@.lines.len() ==> final(self)@.pos == old(self)@.pos + 1 && (r
                matches Ok(Some(l)) && l@ == old(self)@.lines[old(self)@.pos]),
            old(self)@.pos >= old(self)@.lines.len() ==> final(self)@.pos == old(self)@.pos && (
            if old(self)@.failed {
                r matches Err(Error::Io)
            } else {
                r matches Ok(None)
            }),
    {
        match self.fetch() {
            Some(i) => Ok(Some(self.lines[i].clone())),
            None => if self.read_failed {
                Err(Error::Io)
            } else {
                Ok(None)
            },
        }
    }
}

/// The result of reading a part of a file: a value and the index of the line
/// after it, an error, or a panic of the reader.
pub enum Outcome<T> {
    Value(T, int),
    Failure(ErrorView),
    Panic,
}

/// What reading a part of a file gives: a value, an error, or an input on
/// which the reader panics (it does not support the input).
pub enum Flow<T> {
    Done(T),
    Fail(Error),
    Panic,
}

/// The line at the cursor; `msg` is the format error at the end of the file.
pub open spec fn line_or(src: LinesView, msg: Seq<char>) -> Outcome<Seq<char>> {
    if 0 <= src.pos < src.lines.len() {
        Outcome::Value(src.lines[src.pos], src.pos + 1)
    } else if src.failed {
        Outcome::Failure(ErrorView::Io)
    } else {
        Outcome::Failure(ErrorView::Format(msg))
    }
}

/// Three floating-point literals.
#[derive(Debug, PartialEq)]
pub struct Triple {
    pub x: String,
    pub y: String,
    pub z: String,
}

pub type TripleView = (Seq<char>, Seq<char>, Seq<char>);

impl View for Triple {
    type V = TripleView;

    open spec fn view(&self) -> TripleView {
        (self.x@, self.y@, self.z@)
    }
}

impl Triple {
    pub fn duplicate(&self) -> (r: Triple)
        ensures
            r@ == self@,
    {
        Triple { x: self.x.clone(), y: self.y.clone(), z: self.z.clone() }
    }
}

pub open spec fn triples_view(v: Seq<Triple>) -> Seq<TripleView> {
    v.map_values(|t: Triple| t@)
}

/// The first token of `ts[i..]` that is no floating-point literal.
pub open spec fn bad_float_from(ts: Seq<Seq<char>>, i: int) -> Option<Seq<char>>
    decreases ts.len() - i,
{
    if i < 0 || i >= ts.len() {
        None
    } else if !float_literal(ts[i]) {
        Some(ts[i])
    } else {
        bad_float_from(ts, i + 1)
    }
}

/// A line of three numbers: its tokens must all be floating-point literals;
/// with fewer than three the reader panics, and tokens after the third are
/// ignored.
pub open spec fn triple_line(line: Seq<char>) -> Outcome<TripleView> {
    let ts = words(line);
    match bad_float_from(ts, 0) {
        Some(t) => Outcome::Failure(ErrorView::ParseFloatError(t)),
        None => if ts.len() < 3 {
            Outcome::Panic
        } else {
            Outcome::Value((ts[0], ts[1], ts[2]), 0)
        },
    }
}

/// Reads `n` lines of three numbers; `msg` is the format error at the end of
/// the file.
pub open spec fn read_triples_spec(src: LinesView, n: nat, msg: Seq<char>) -> Outcome<Seq<TripleView>>
    decreases n,
{
    if n == 0 {
        Outcome::Value(seq![], src.pos)
    } else {
        match line_or(src, msg) {
            Outcome::Value(line, p) => match triple_line(line) {
                Outcome::Value(t, _) => match read_triples_spec(src.at(p), (n - 1) as nat, msg) {
                    Outcome::Value(rest, q) => Outcome::Value(seq![t] + rest, q),
                    Outcome::Failure(e) => Outcome::Failure(e),
                    Outcome::Panic => Outcome::Panic,
                },
                Outcome::Failure(e) => Outcome::Failure(e),
                Outcome::Panic => Outcome::Panic,
            },
            Outcome::Failure(e) => Outcome::Failure(e),
            Outcome::Panic => Outcome::Panic,
        }
    }
}

/// The tokens of `line`, checked to be floating-point literals.
fn float_tokens(line: &String) -> (r: Result<Vec<String>, Error>)
    ensures
        match bad_float_from(words(line@), 0) {
            Some(t) => (r matches Err(e) && e@ == ErrorView::ParseFloatError(t)),
            None => (r matches Ok(ts) && ts@.map_values(|s: String| s@) == words(line@)),
        },
{
    let ts = split_ws(line.as_str());
    let ghost w = words(line@);
    let mut i: usize = 0;
    while i < ts.len()
        invariant
            0 <= i <= ts@.len(),
            ts@.len() == w.len(),
            w == words(line@),
            forall|j: int| 0 <= j < ts@.len() ==> (#[trigger] ts@[j])@ == w[j],
            bad_float_from(w, 0) == bad_float_from(w, i as int),
        decreases ts.len() - i,
    {
        if !is_float_literal(ts[i].as_str()) {
            return Err(Error::ParseFloatError(ts[i].clone()));
        }
        i = i + 1;
    }
    assert(ts@.map_values(|s: String| s@) =~= w);
    Ok(ts)
}

/// Reads `n` lines of three numbers; `msg` is the format error at the end of
/// the file.
fn read_triples(lines: &mut Lines, n: usize, msg: &str) -> (r: Flow<Vec<Triple>>)
    ensures
        final(lines)@.lines == old(lines)@.lines,
        final(lines)@.failed == old(lines)@.failed,
        match read_triples_spec(old(lines)@, n as nat, msg@) {
            Outcome::Value(v, p) => (r matches Flow::Done(x) && triples_view(x@) == v
                && final(lines)@.pos == p),
            Outcome::Failure(e) => (r matches Flow::Fail(x) && x@ == e),
            Outcome::Panic => r is Panic,
        },
{
    let ghost src0 = lines@;
    let mut out: Vec<Triple> = Vec::new();
    let mut k: usize = 0;
    while k < n
        invariant
            0 <= k <= n,
            src0.lines == old(lines)@.lines,
            src0.failed == old(lines)@.failed,
            src0 == old(lines)@,
            lines@.lines == src0.lines,
            lines@.failed == src0.failed,
            read_triples_spec(src0, n as nat, msg@) == match read_triples_spec(
                lines@,
                (n - k) as nat,
                msg@,
            ) {
                Outcome::Value(rest, q) => Outcome::Value(triples_view(out@) + rest, q),
                Outcome::Failure(e) => Outcome::Failure(e),
                Outcome::Panic => Outcome::Panic,
            },
        decreases n - k,
    {
        let ghost before = lines@;
        assert(triples_view(out@) + seq![] =~= triples_view(out@));
        match lines.fetch() {
            None => {
                if lines.read_failed {
                    return Flow::Fail(Error::Io);
                } else {
                    return Flow::Fail(Error::Format(msg.to_string()));
                }
            },
            Some(i) => {
                assert(before.lines[i as int] == lines.lines@[i as int]@);
                match float_tokens(&lines.lines[i]) {
                    Err(e) => {
                        return Flow::Fail(e);
                    },
                    Ok(ts) => {
                        if ts.len() < 3 {
                            return Flow::Panic;
                        }
                        let t = Triple { x: ts[0].clone(), y: ts[1].clone(), z: ts[2].clone() };
                        proof {
                            let w = words(before.lines[i as int]);
                            assert(ts@.map_values(|s: String| s@)[0] == w[0]);
                            assert(ts@.map_values(|s: String| s@)[1] == w[1]);
                            assert(ts@.map_values(|s: String| s@)[2] == w[2]);
                        }
                        let ghost old_out = triples_view(out@);
                        out.push(t);
                        assert(triples_view(out@) =~= old_out + seq![t@]);
                        proof {
                            match read_triples_spec(lines@, (n - k - 1) as nat, msg@) {
                                Outcome::Value(rest, q) => {
                                    assert(old_out + (seq![t@] + rest) =~= triples_view(out@)
                                        + rest);
                                },
                                _ => {},
                            }
                        }
                    },
                }
            },
        }
        k = k + 1;
    }
    assert(triples_view(out@) + seq![] =~= triples_view(out@));
    Flow::Done(out)
}


/// The elements named by `ts[i..]`, or the first token that names none.
pub open spec fn elements_from(ts: Seq<Seq<char>>, i: int) -> Result<Seq<Element>, Seq<char>>
    decreases ts.len() - i,
{
    if i < 0 || i >= ts.len() {
        Ok(seq![])
    } else {
        match element_named(ts[i]) {
            None => Err(ts[i]),
            Some(e) => match elements_from(ts, i + 1) {
                Ok(rest) => Ok(seq![e] + rest),
                Err(t) => Err(t),
            },
        }
    }
}

/// The counts written in `ts[i..]`, or the first token that is no count.
pub open spec fn counts_from(ts: Seq<Seq<char>>, i: int) -> Result<Seq<usize>, Seq<char>>
    decreases ts.len() - i,
{
    if i < 0 || i >= ts.len() {
        Ok(seq![])
    } else {
        match parsed_usize(ts[i]) {
            None => Err(ts[i]),
            Some(c) => match counts_from(ts, i + 1) {
                Ok(rest) => Ok(seq![c] + rest),
                Err(t) => Err(t),
            },
        }
    }
}

/// Elements and counts paired up, as far as both go.
pub open spec fn zip_counts(es: Seq<Element>, cs: Seq<usize>) -> Seq<(Element, usize)> {
    let n = if es.len() <= cs.len() { es.len() } else { cs.len() };
    Seq::new(n, |i: int| (es[i], cs[i]))
}

/// The total of the counts.
pub open spec fn count_sum(pairs: Seq<(Element, usize)>) -> nat
    decreases pairs.len(),
{
    if pairs.len() == 0 {
        0
    } else {
        count_sum(pairs.drop_last()) + pairs.last().1 as nat
    }
}

/// A coordinate line that asks for selective dynamics, which the reader
/// does not support: it starts with `s` in either case.
pub open spec fn selective_dynamics(t: Seq<char>) -> bool {
    t.len() > 0 && (t[0] == 's' || t[0] == 'S')
}

/// The header of a POSCAR or XDATCAR configuration.
#[derive(Debug, PartialEq)]
pub struct ConfigHeader {
    pub n_atoms_per_element: Vec<(Element, usize)>,
    pub atom_count: usize,
    /// The rows are the three lattice vectors.
    pub cell_matrix: Vec<Triple>,
    pub coordinate_type: Coordinates,
    pub _scaling_factor: String,
}

pub struct HeaderView {
    pub n_atoms_per_element: Seq<(Element, usize)>,
    pub atom_count: usize,
    pub cell_matrix: Seq<TripleView>,
    pub coordinate_type: Coordinates,
    pub scaling_factor: Seq<char>,
}

impl View for ConfigHeader {
    type V = HeaderView;

    open spec fn view(&self) -> HeaderView {
        HeaderView {
            n_atoms_per_element: self.n_atoms_per_element@,
            atom_count: self.atom_count,
            cell_matrix: triples_view(self.cell_matrix@),
            coordinate_type: self.coordinate_type,
            scaling_factor: self._scaling_factor@,
        }
    }
}

/// The end of a header, once its coordinate line `t` (trimmed) is read.
pub open spec fn header_finish(
    t: Seq<char>,
    scaling: Seq<char>,
    rows: Seq<TripleView>,
    es: Seq<Element>,
    cs: Seq<usize>,
    p: int,
) -> Outcome<HeaderView> {
    if selective_dynamics(t) {
        Outcome::Panic
    } else {
        match coordinates_named(t) {
            None => Outcome::Failure(ErrorView::ParseError(t)),
            Some(ct) => {
                let pairs = zip_counts(es, cs);
                if count_sum(pairs) > usize::MAX {
                    Outcome::Panic
                } else {
                    Outcome::Value(
                        HeaderView {
                            n_atoms_per_element: pairs,
                            atom_count: count_sum(pairs) as usize,
                            cell_matrix: rows,
                            coordinate_type: ct,
                            scaling_factor: scaling,
                        },
                        p,
                    )
                }
            },
        }
    }
}

/// A header after its scaling factor and lattice vectors: the element line,
/// the count line and the coordinate line.
pub open spec fn header_tail(src: LinesView, scaling: Seq<char>, rows: Seq<TripleView>) -> Outcome<
    HeaderView,
> {
    match line_or(src, "Failed to read elements"@) {
        Outcome::Value(eline, p3) => match elements_from(words(eline), 0) {
            Err(t) => Outcome::Failure(ErrorView::ParseError(t)),
            Ok(es) => match line_or(src.at(p3), "Failed to read atom count per element"@) {
                Outcome::Value(cline, p4) => match counts_from(words(cline), 0) {
                    Err(t) => Outcome::Failure(ErrorView::ParseIntError(t)),
                    Ok(cs) => match line_or(src.at(p4), "Failed to read coordinate_type"@) {
                        Outcome::Value(tline, p5) => header_finish(trim(tline), scaling, rows, es, cs, p5),
                        Outcome::Failure(e) => Outcome::Failure(e),
                        Outcome::Panic => Outcome::Panic,
                    },
                },
                Outcome::Failure(e) => Outcome::Failure(e),
                Outcome::Panic => Outcome::Panic,
            },
        },
        Outcome::Failure(e) => Outcome::Failure(e),
        Outcome::Panic => Outcome::Panic,
    }
}

/// A configuration header: the scaling factor (the whole line a
/// floating-point literal), three lattice vectors, the element names, the
/// count of atoms of each element and the coordinate convention.
pub open spec fn header_spec(src: LinesView) -> Outcome<HeaderView> {
    match line_or(src, "Failed to read scaling factor"@) {
        Outcome::Value(sline, p1) => if !float_literal(sline) {
            Outcome::Failure(ErrorView::ParseFloatError(sline))
        } else {
            match read_triples_spec(src.at(p1), 3, "Failed to read lattice vector"@) {
                Outcome::Value(rows, p2) => header_tail(src.at(p2), sline, rows),
                Outcome::Failure(e) => Outcome::Failure(e),
                Outcome::Panic => Outcome::Panic,
            }
        },
        Outcome::Failure(e) => Outcome::Failure(e),
        Outcome::Panic => Outcome::Panic,
    }
}

fn parse_elements(line: &String) -> (r: Result<Vec<Element>, String>)
    ensures
        match elements_from(words(line@), 0) {
            Ok(es) => (r matches Ok(v) && v@ == es),
            Err(t) => (r matches Err(s) && s@ == t),
        },
{
    let ts = split_ws(line.as_str());
    let ghost w = words(line@);
    let mut out: Vec<Element> = Vec::new();
    let mut i: usize = 0;
    while i < ts.len()
        invariant
            0 <= i <= ts@.len(),
            ts@.len() == w.len(),
            w == words(line@),
            forall|j: int| 0 <= j < ts@.len() ==> (#[trigger] ts@[j])@ == w[j],
            elements_from(w, 0) == match elements_from(w, i as int) {
                Ok(rest) => Ok(out@ + rest),
                Err(t) => Err(t),
            },
        decreases ts.len() - i,
    {
        match Element::from_name(ts[i].as_str()) {
            None => {
                return Err(ts[i].clone());
            },
            Some(e) => {
                let ghost old_out = out@;
                out.push(e);
                proof {
                    match elements_from(w, i + 1) {
                        Ok(rest) => {
                            assert(old_out + (seq![e] + rest) =~= out@ + rest);
                        },
                        _ => {},
                    }
                }
            },
        }
        i = i + 1;
    }
    assert(out@ + seq![] =~= out@);
    Ok(out)
}

fn parse_counts(line: &String) -> (r: Result<Vec<usize>, String>)
    ensures
        match counts_from(words(line@), 0) {
            Ok(cs) => (r matches Ok(v) && v@ == cs),
            Err(t) => (r matches Err(s) && s@ == t),
        },
{
    let ts = split_ws(line.as_str());
    let ghost w = words(line@);
    let mut out: Vec<usize> = Vec::new();
    let mut i: usize = 0;
    while i < ts.len()
        invariant
            0 <= i <= ts@.len(),
            ts@.len() == w.len(),
            w == words(line@),
            forall|j: int| 0 <= j < ts@.len() ==> (#[trigger] ts@[j])@ == w[j],
            counts_from(w, 0) == match counts_from(w, i as int) {
                Ok(rest) => Ok(out@ + rest),
                Err(t) => Err(t),
            },
        decreases ts.len() - i,
    {
        match parse_usize(ts[i].as_str()) {
            None => {
                return Err(ts[i].clone());
            },
            Some(c) => {
                let ghost old_out = out@;
                out.push(c);
                proof {
                    match counts_from(w, i + 1) {
                        Ok(rest) => {
                            assert(old_out + (seq![c] + rest) =~= out@ + rest);
                        },
                        _ => {},
                    }
                }
            },
        }
        i = i + 1;
    }
    assert(out@ + seq![] =~= out@);
    Ok(out)
}

proof fn lemma_count_sum_prefix(pairs: Seq<(Element, usize)>, k: int)
    requires
        0 <= k <= pairs.len(),
    ensures
        count_sum(pairs.take(k)) <= count_sum(pairs),
    decreases pairs.len(),
{
    if k < pairs.len() {
        assert(pairs.drop_last().take(k) =~= pairs.take(k));
        lemma_count_sum_prefix(pairs.drop_last(), k);
    } else {
        assert(pairs.take(k) =~= pairs);
    }
}

/// Pairs elements with counts and adds the counts up; `None` where the
/// total does not fit in `usize`.
fn zip_and_total(es: Vec<Element>, cs: Vec<usize>) -> (r: (Vec<(Element, usize)>, Option<usize>))
    ensures
        r.0@ == zip_counts(es@, cs@),
        count_sum(r.0@) <= usize::MAX ==> r.1 == Some(count_sum(r.0@) as usize),
        count_sum(r.0@) > usize::MAX ==> r.1 is None,
{
    let n = if es.len() <= cs.len() { es.len() } else { cs.len() };
    let mut pairs: Vec<(Element, usize)> = Vec::new();
    let mut i: usize = 0;
    while i < n
        invariant
            i <= n,
            n == (if es@.len() <= cs@.len() { es@.len() } else { cs@.len() }),
            pairs@ =~= zip_counts(es@, cs@).take(i as int),
        decreases n - i,
    {
        pairs.push((es[i], cs[i]));
        i = i + 1;
    }
    assert(pairs@ =~= zip_counts(es@, cs@));
    let mut total: usize = 0;
    let mut j: usize = 0;
    while j < pairs.len()
        invariant
            j <= pairs@.len(),
            pairs@ == zip_counts(es@, cs@),
            total == count_sum(pairs@.take(j as int)),
        decreases pairs.len() - j,
    {
        assert(pairs@.take(j + 1).drop_last() =~= pairs@.take(j as int));
        if total > usize::MAX - pairs[j].1 {
            proof {
                lemma_count_sum_prefix(pairs@, j + 1);
            }
            return (pairs, None);
        }
        total = total + pairs[j].1;
        j = j + 1;
    }
    assert(pairs@.take(j as int) =~= pairs@);
    (pairs, Some(total))
}

/// Reads one line into `String`, or gives the error of a missing line.
fn take_line(lines: &mut Lines, msg: &str) -> (r: Result<String, Error>)
    ensures
        final(lines)@.lines == old(lines)@.lines,
        final(lines)@.failed == old(lines)@.failed,
        match line_or(old(lines)@, msg@) {
            Outcome::Value(l, p) => (r matches Ok(s) && s@ == l && final(lines)@.pos == p),
            Outcome::Failure(e) => (r matches Err(x) && x@ == e),
            Outcome::Panic => false,
        },
{
    match lines.fetch() {
        Some(i) => Ok(lines.lines[i].clone()),
        None => if lines.read_failed {
            Err(Error::Io)
        } else {
            Err(Error::Format(msg.to_string()))
        },
    }
}


/// Reads a configuration header at the cursor, as [`header_spec`] says.
pub fn scan_config_header(lines: &mut Lines) -> (r: Flow<ConfigHeader>)
    ensures
        final(lines)@.lines == old(lines)@.lines,
        final(lines)@.failed == old(lines)@.failed,
        match header_spec(old(lines)@) {
            Outcome::Value(h, p) => (r matches Flow::Done(x) && x@ == h && final(lines)@.pos == p),
            Outcome::Failure(e) => (r matches Flow::Fail(x) && x@ == e),
            Outcome::Panic => r is Panic,
        },
{
    let scaling = match take_line(lines, "Failed to read scaling factor") {
        Ok(l) => l,
        Err(e) => {
            return Flow::Fail(e);
        },
    };
    if !is_float_literal(scaling.as_str()) {
        return Flow::Fail(Error::ParseFloatError(scaling));
    }
    let rows = match read_triples(lines, 3, "Failed to read lattice vector") {
        Flow::Done(v) => v,
        Flow::Fail(e) => {
            return Flow::Fail(e);
        },
        Flow::Panic => {
            return Flow::Panic;
        },
    };
    let eline = match take_line(lines, "Failed to read elements") {
        Ok(l) => l,
        Err(e) => {
            return Flow::Fail(e);
        },
    };
    let es = match parse_elements(&eline) {
        Ok(v) => v,
        Err(t) => {
            return Flow::Fail(Error::ParseError(t));
        },
    };
    let cline = match take_line(lines, "Failed to read atom count per element") {
        Ok(l) => l,
        Err(e) => {
            return Flow::Fail(e);
        },
    };
    let cs = match parse_counts(&cline) {
        Ok(v) => v,
        Err(t) => {
            return Flow::Fail(Error::ParseIntError(t));
        },
    };
    let tline = match take_line(lines, "Failed to read coordinate_type") {
        Ok(l) => l,
        Err(e) => {
            return Flow::Fail(e);
        },
    };
    let t = trim_ws(tline.as_str());
    let tc = chars_of(t.as_str());
    if tc.len() > 0 && (tc[0] == 's' || tc[0] == 'S') {
        return Flow::Panic;
    }
    let coordinate_type = match Coordinates::from_name(t.as_str()) {
        Some(c) => c,
        None => {
            return Flow::Fail(Error::ParseError(t));
        },
    };
    let (pairs, total) = zip_and_total(es, cs);
    match total {
        None => Flow::Panic,
        Some(atom_count) => Flow::Done(
            ConfigHeader {
                n_atoms_per_element: pairs,
                atom_count,
                cell_matrix: rows,
                coordinate_type,
                _scaling_factor: scaling,
            },
        ),
    }
}

/// Reads a configuration header at the cursor; see [`scan_config_header`].
pub fn read_config_header(lines: &mut Lines) -> (r: Result<ConfigHeader, Error>)
    requires
        !(header_spec(old(lines)@) is Panic),
    ensures
        final(lines)@.lines == old(lines)@.lines,
        final(lines)@.failed == old(lines)@.failed,
        match header_spec(old(lines)@) {
            Outcome::Value(h, p) => (r matches Ok(x) && x@ == h && final(lines)@.pos == p),
            Outcome::Failure(e) => (r matches Err(x) && x@ == e),
            Outcome::Panic => false,
        },
{
    match scan_config_header(lines) {
        Flow::Done(h) => Ok(h),
        Flow::Fail(e) => Err(e),
        Flow::Panic => vstd::pervasive::unreached(),
    }
}


/// Reads `n` atom positions, one line each.
pub open spec fn positions_spec(src: LinesView, n: nat) -> Outcome<Seq<TripleView>> {
    read_triples_spec(src, n, "Failed to read ion position"@)
}

/// Reads `n_atoms` atom positions at the cursor, as [`positions_spec`] says.
pub fn scan_positions(n_atoms: usize, lines: &mut Lines) -> (r: Flow<Vec<Triple>>)
    ensures
        final(lines)@.lines == old(lines)@.lines,
        final(lines)@.failed == old(lines)@.failed,
        match positions_spec(old(lines)@, n_atoms as nat) {
            Outcome::Value(v, p) => (r matches Flow::Done(x) && triples_view(x@) == v
                && final(lines)@.pos == p),
            Outcome::Failure(e) => (r matches Flow::Fail(x) && x@ == e),
            Outcome::Panic => r is Panic,
        },
{
    read_triples(lines, n_atoms, "Failed to read ion position")
}

/// Reads `n_atoms` atom positions at the cursor; see [`scan_positions`].
pub fn read_positions(n_atoms: usize, lines: &mut Lines) -> (r: Result<Vec<Triple>, Error>)
    requires
        !(positions_spec(old(lines)@, n_atoms as nat) is Panic),
    ensures
        final(lines)@.lines == old(lines)@.lines,
        final(lines)@.failed == old(lines)@.failed,
        match positions_spec(old(lines)@, n_atoms as nat) {
            Outcome::Value(v, p) => (r matches Ok(x) && triples_view(x@) == v && final(lines)@.pos
                == p),
            Outcome::Failure(e) => (r matches Err(x) && x@ == e),
            Outcome::Panic => false,
        },
{
    match scan_positions(n_atoms, lines) {
        Flow::Done(v) => Ok(v),
        Flow::Fail(e) => Err(e),
        Flow::Panic => vstd::pervasive::unreached(),
    }
}

/// One configuration read from a file.
#[derive(Debug, PartialEq)]
pub struct ReadResult {
    pub positions: Vec<Triple>,
    pub element_count: Vec<(Element, usize)>,
    /// The rows are the three lattice vectors.
    pub cell_matrix: Vec<Triple>,
    pub coordinate_type: Coordinates,
}

pub struct ReadResultView {
    pub positions: Seq<TripleView>,
    pub element_count: Seq<(Element, usize)>,
    pub cell_matrix: Seq<TripleView>,
    pub coordinate_type: Coordinates,
}

impl View for ReadResult {
    type V = ReadResultView;

    open spec fn view(&self) -> ReadResultView {
        ReadResultView {
            positions: triples_view(self.positions@),
            element_count: self.element_count@,
            cell_matrix: triples_view(self.cell_matrix@),
            coordinate_type: self.coordinate_type,
        }
    }
}

/// What a file holds: one configuration (POSCAR) or a sequence of them
/// (XDATCAR).
#[derive(Debug, PartialEq)]
#[allow(inconsistent_fields)]
pub enum ReadResultVariant {
    ReadResult { res: ReadResult },
    ReadResults { res: Vec<ReadResult> },
}

#[allow(inconsistent_fields)]
pub enum ReadResultVariantView {
    ReadResult { res: ReadResultView },
    ReadResults { res: Seq<ReadResultView> },
}

impl View for ReadResultVariant {
    type V = ReadResultVariantView;

    open spec fn view(&self) -> ReadResultVariantView {
        match self {
            ReadResultVariant::ReadResult { res } => ReadResultVariantView::ReadResult { res: res@ },
            ReadResultVariant::ReadResults { res } => ReadResultVariantView::ReadResults {
                res: res@.map_values(|r: ReadResult| r@),
            },
        }
    }
}

/// The configuration of a header and positions.
pub open spec fn result_of(h: HeaderView, ps: Seq<TripleView>) -> ReadResultView {
    ReadResultView {
        positions: ps,
        element_count: h.n_atoms_per_element,
        cell_matrix: h.cell_matrix,
        coordinate_type: h.coordinate_type,
    }
}

/// A POSCAR file: a comment line, a header and the positions of its atoms.
/// Lines after them are not read.
pub open spec fn poscar_spec(src: LinesView) -> Outcome<ReadResultVariantView> {
    match line_or(src, "File is empty"@) {
        Outcome::Value(_, p1) => match header_spec(src.at(p1)) {
            Outcome::Value(h, p2) => match positions_spec(src.at(p2), h.atom_count as nat) {
                Outcome::Value(ps, p3) => Outcome::Value(
                    ReadResultVariantView::ReadResult { res: result_of(h, ps) },
                    p3,
                ),
                Outcome::Failure(e) => Outcome::Failure(e),
                Outcome::Panic => Outcome::Panic,
            },
            Outcome::Failure(e) => Outcome::Failure(e),
            Outcome::Panic => Outcome::Panic,
        },
        Outcome::Failure(e) => Outcome::Failure(e),
        Outcome::Panic => Outcome::Panic,
    }
}

pub proof fn lemma_read_triples_advances(src: LinesView, n: nat, msg: Seq<char>)
    ensures
        read_triples_spec(src, n, msg) matches Outcome::Value(_, q) ==> q >= src.pos && (src.pos
            <= src.lines.len() ==> q <= src.lines.len()),
    decreases n,
{
    if n > 0 {
        match line_or(src, msg) {
            Outcome::Value(_, p) => {
                lemma_read_triples_advances(src.at(p), (n - 1) as nat, msg);
            },
            _ => {},
        }
    }
}

/// The configurations of an XDATCAR file after its header: each is the
/// positions of the atoms, and after each stands a line (the configuration
/// number) unless the file ends there.
pub open spec fn frames_spec(src: LinesView, h: HeaderView) -> Outcome<Seq<ReadResultView>>
    decreases src.lines.len() - src.pos,
{
    match positions_spec(src, h.atom_count as nat) {
        Outcome::Value(ps, p) => {
            let r = result_of(h, ps);
            if 0 <= src.pos && 0 <= p < src.lines.len() {
                proof {
                    lemma_read_triples_advances(src, h.atom_count as nat, "Failed to read ion position"@);
                }
                match frames_spec(src.at(p + 1), h) {
                    Outcome::Value(rest, q) => Outcome::Value(seq![r] + rest, q),
                    Outcome::Failure(e) => Outcome::Failure(e),
                    Outcome::Panic => Outcome::Panic,
                }
            } else if 0 <= p < src.lines.len() {
                Outcome::Failure(ErrorView::Io)
            } else if src.failed {
                Outcome::Failure(ErrorView::Io)
            } else {
                Outcome::Value(seq![r], p)
            }
        },
        Outcome::Failure(e) => Outcome::Failure(e),
        Outcome::Panic => Outcome::Panic,
    }
}

/// An XDATCAR file: a comment line, a header and then configurations until
/// the end of the file.
pub open spec fn xdatcar_spec(src: LinesView) -> Outcome<ReadResultVariantView> {
    match line_or(src, "File is empty"@) {
        Outcome::Value(_, p1) => match header_spec(src.at(p1)) {
            Outcome::Value(h, p2) => match frames_spec(src.at(p2), h) {
                Outcome::Value(fs, p3) => Outcome::Value(
                    ReadResultVariantView::ReadResults { res: fs },
                    p3,
                ),
                Outcome::Failure(e) => Outcome::Failure(e),
                Outcome::Panic => Outcome::Panic,
            },
            Outcome::Failure(e) => Outcome::Failure(e),
            Outcome::Panic => Outcome::Panic,
        },
        Outcome::Failure(e) => Outcome::Failure(e),
        Outcome::Panic => Outcome::Panic,
    }
}

fn copy_counts(v: &Vec<(Element, usize)>) -> (r: Vec<(Element, usize)>)
    ensures
        r@ == v@,
{
    let mut r: Vec<(Element, usize)> = Vec::new();
    let mut i: usize = 0;
    while i < v.len()
        invariant
            i <= v@.len(),
            r@ =~= v@.take(i as int),
        decreases v.len() - i,
    {
        r.push(v[i]);
        i = i + 1;
    }
    assert(r@ =~= v@);
    r
}

fn copy_triples(v: &Vec<Triple>) -> (r: Vec<Triple>)
    ensures
        triples_view(r@) == triples_view(v@),
{
    let mut r: Vec<Triple> = Vec::new();
    let mut i: usize = 0;
    while i < v.len()
        invariant
            i <= v@.len(),
            triples_view(r@) =~= triples_view(v@).take(i as int),
        decreases v.len() - i,
    {
        let t = v[i].duplicate();
        let ghost before = r@;
        r.push(t);
        assert(r@ =~= before.push(t));
        assert(triples_view(r@) =~= triples_view(before).push(t@));
        assert(triples_view(v@).take(i + 1) =~= triples_view(v@).take(i as int).push(v@[i as int]@));
        i = i + 1;
    }
    assert(triples_view(r@) =~= triples_view(v@));
    r
}

fn make_result(h: &ConfigHeader, positions: Vec<Triple>) -> (r: ReadResult)
    ensures
        r@ == result_of(h@, triples_view(positions@)),
{
    ReadResult {
        positions,
        element_count: copy_counts(&h.n_atoms_per_element),
        cell_matrix: copy_triples(&h.cell_matrix),
        coordinate_type: h.coordinate_type,
    }
}

/// Reads a POSCAR file, as [`poscar_spec`] says.
pub fn scan_poscar(lines: &mut Lines) -> (r: Flow<ReadResultVariant>)
    ensures
        match poscar_spec(old(lines)@) {
            Outcome::Value(v, _) => (r matches Flow::Done(x) && x@ == v),
            Outcome::Failure(e) => (r matches Flow::Fail(x) && x@ == e),
            Outcome::Panic => r is Panic,
        },
{
    match take_line(lines, "File is empty") {
        Ok(_) => {},
        Err(e) => {
            return Flow::Fail(e);
        },
    }
    let header = match scan_config_header(lines) {
        Flow::Done(h) => h,
        Flow::Fail(e) => {
            return Flow::Fail(e);
        },
        Flow::Panic => {
            return Flow::Panic;
        },
    };
    let positions = match scan_positions(header.atom_count, lines) {
        Flow::Done(v) => v,
        Flow::Fail(e) => {
            return Flow::Fail(e);
        },
        Flow::Panic => {
            return Flow::Panic;
        },
    };
    Flow::Done(ReadResultVariant::ReadResult { res: make_result(&header, positions) })
}

/// Reads a POSCAR file; see [`scan_poscar`].
pub fn read_poscar(lines: &mut Lines) -> (r: Result<ReadResultVariant, Error>)
    requires
        !(poscar_spec(old(lines)@) is Panic),
    ensures
        match poscar_spec(old(lines)@) {
            Outcome::Value(v, _) => (r matches Ok(x) && x@ == v),
            Outcome::Failure(e) => (r matches Err(x) && x@ == e),
            Outcome::Panic => false,
        },
{
    match scan_poscar(lines) {
        Flow::Done(v) => Ok(v),
        Flow::Fail(e) => Err(e),
        Flow::Panic => vstd::pervasive::unreached(),
    }
}


/// Reads an XDATCAR file, as [`xdatcar_spec`] says.
pub fn scan_xdatcar(lines: &mut Lines) -> (r: Flow<ReadResultVariant>)
    ensures
        match xdatcar_spec(old(lines)@) {
            Outcome::Value(v, _) => (r matches Flow::Done(x) && x@ == v),
            Outcome::Failure(e) => (r matches Flow::Fail(x) && x@ == e),
            Outcome::Panic => r is Panic,
        },
{
    match take_line(lines, "File is empty") {
        Ok(_) => {},
        Err(e) => {
            return Flow::Fail(e);
        },
    }
    let header = match scan_config_header(lines) {
        Flow::Done(h) => h,
        Flow::Fail(e) => {
            return Flow::Fail(e);
        },
        Flow::Panic => {
            return Flow::Panic;
        },
    };
    let ghost start = lines@;
    let ghost h = header@;
    let mut frames: Vec<ReadResult> = Vec::new();
    lines.cursor_bound();
    loop
        invariant
            lines@.lines == start.lines,
            lines@.failed == start.failed,
            0 <= lines@.pos <= lines@.lines.len(),
            h == header@,
            xdatcar_spec(old(lines)@) == match frames_spec(start, h) {
                Outcome::Value(fs, p3) => Outcome::Value(
                    ReadResultVariantView::ReadResults { res: fs },
                    p3,
                ),
                Outcome::Failure(e) => Outcome::Failure(e),
                Outcome::Panic => Outcome::Panic,
            },
            frames_spec(start, h) == match frames_spec(lines@, h) {
                Outcome::Value(rest, q) => Outcome::Value(frames@.map_values(|r: ReadResult| r@) + rest, q),
                Outcome::Failure(e) => Outcome::Failure(e),
                Outcome::Panic => Outcome::Panic,
            },
        decreases lines@.lines.len() - lines@.pos,
    {
        let ghost before = lines@;
        let positions = match scan_positions(header.atom_count, lines) {
            Flow::Done(v) => v,
            Flow::Fail(e) => {
                return Flow::Fail(e);
            },
            Flow::Panic => {
                return Flow::Panic;
            },
        };
        proof {
            lemma_read_triples_advances(before, header.atom_count as nat, "Failed to read ion position"@);
        }
        let res = make_result(&header, positions);
        let ghost old_frames = frames@.map_values(|r: ReadResult| r@);
        frames.push(res);
        assert(frames@.map_values(|r: ReadResult| r@) =~= old_frames.push(res@));
        match lines.fetch() {
            None => {
                if lines.read_failed {
                    return Flow::Fail(Error::Io);
                }
                assert(old_frames + seq![res@] =~= old_frames.push(res@));
                return Flow::Done(ReadResultVariant::ReadResults { res: frames });
            },
            Some(_) => {
                proof {
                    match frames_spec(lines@, h) {
                        Outcome::Value(rest, q) => {
                            assert(old_frames + (seq![res@] + rest) =~= old_frames.push(res@) + rest);
                        },
                        _ => {},
                    }
                }
            },
        }
    }
}

/// Reads an XDATCAR file; see [`scan_xdatcar`].
pub fn read_xdatcar(lines: &mut Lines) -> (r: Result<ReadResultVariant, Error>)
    requires
        !(xdatcar_spec(old(lines)@) is Panic),
    ensures
        match xdatcar_spec(old(lines)@) {
            Outcome::Value(v, _) => (r matches Ok(x) && x@ == v),
            Outcome::Failure(e) => (r matches Err(x) && x@ == e),
            Outcome::Panic => false,
        },
{
    match scan_xdatcar(lines) {
        Flow::Done(v) => Ok(v),
        Flow::Fail(e) => Err(e),
        Flow::Panic => vstd::pervasive::unreached(),
    }
}


proof fn lemma_read_triples_len(src: LinesView, n: nat, msg: Seq<char>)
    ensures
        read_triples_spec(src, n, msg) matches Outcome::Value(v, _) ==> v.len() == n,
    decreases n,
{
    if n > 0 {
        match line_or(src, msg) {
            Outcome::Value(_, p) => {
                lemma_read_triples_len(src.at(p), (n - 1) as nat, msg);
            },
            _ => {},
        }
    }
}

/// A configuration is whole: one position per atom that its element counts
/// add up to, and three lattice vectors.
pub open spec fn is_whole(r: ReadResultView) -> bool {
    &&& r.positions.len() == count_sum(r.element_count)
    &&& r.cell_matrix.len() == 3
}

/// A header holds three lattice vectors, and its atom count is the sum of
/// its element counts.
pub proof fn lemma_header_shape(src: LinesView)
    ensures
        header_spec(src) matches Outcome::Value(h, _) ==> h.cell_matrix.len() == 3 && h.atom_count == count_sum(h.n_atoms_per_element),
{
    match line_or(src, "Failed to read scaling factor"@) {
        Outcome::Value(_, p1) => {
            lemma_read_triples_len(src.at(p1), 3, "Failed to read lattice vector"@);
        },
        _ => {},
    }
}

/// The first three tokens of `line`, in the order written.
pub open spec fn first_three(line: Seq<char>) -> TripleView {
    (words(line)[0], words(line)[1], words(line)[2])
}

proof fn lemma_read_triples_rows(src: LinesView, n: nat, msg: Seq<char>)
    ensures
        read_triples_spec(src, n, msg) matches Outcome::Value(v, _) ==> v.len() == n && forall|k: int|
            #![trigger v[k]]
            0 <= k < n ==> words(src.lines[src.pos + k]).len() >= 3 && v[k] == first_three(src.lines[src.pos + k]),
    decreases n,
{
    if n > 0 && 0 <= src.pos < src.lines.len() {
        let line = src.lines[src.pos];
        let p = src.pos + 1;
        assert(line_or(src, msg) == Outcome::<Seq<char>>::Value(line, p));
        lemma_read_triples_rows(src.at(p), (n - 1) as nat, msg);
        if let Outcome::Value(t, _) = triple_line(line) {
            if let Outcome::Value(rest, q) = read_triples_spec(src.at(p), (n - 1) as nat, msg) {
                let v = seq![t] + rest;
                assert(read_triples_spec(src, n, msg) == Outcome::<Seq<TripleView>>::Value(v, q));
                assert(words(line).len() >= 3 && t == first_three(line));
                assert forall|k: int| 0 <= k < n implies words(src.lines[src.pos + k]).len() >= 3
                    && #[trigger] v[k] == first_three(src.lines[src.pos + k]) by {
                    if k > 0 {
                        let r = rest[k - 1];
                        assert(words(src.lines[src.at(p).pos + (k - 1)]).len() >= 3);
                        assert(src.lines[src.pos + k] == src.lines[src.at(p).pos + (k - 1)]);
                        assert(v[k] == r);
                    }
                }
                assert(v.len() == n);
                assert forall|k: int| 0 <= k < n implies #[trigger] words(src.lines[src.pos + k]).len() >= 3 by {
                    assert(v[k] == first_three(src.lines[src.pos + k]));
                }
            }
        }
    }
}

/// A header keeps its lattice vectors as written: the scaling factor is the
/// first line, and row `k` of the cell matrix is the first three tokens of
/// line `k + 1`, in order (each lattice line one row, never transposed).
pub proof fn lemma_header_rows_are_lattice_lines(src: LinesView)
    ensures
        header_spec(src) matches Outcome::Value(h, _) ==> {
            &&& h.scaling_factor == line_at(src, 0)
            &&& h.cell_matrix.len() == 3
            &&& forall|k: int| 0 <= k < 3 ==> words(line_at(src, k + 1)).len() >= 3
                && #[trigger] h.cell_matrix[k] == first_three(line_at(src, k + 1))
        },
{
    match line_or(src, "Failed to read scaling factor"@) {
        Outcome::Value(_, p1) => {
            let lat = src.at(p1);
            lemma_read_triples_rows(lat, 3, "Failed to read lattice vector"@);
            match read_triples_spec(lat, 3, "Failed to read lattice vector"@) {
                Outcome::Value(rows, p2) => {
                    assert forall|k: int| 0 <= k < 3 implies #[trigger] words(line_at(src, k + 1)).len() >= 3 && rows[k]
                        == first_three(line_at(src, k + 1)) by {
                        assert(line_at(src, k + 1) == lat.lines[lat.pos + k]);
                        assert(rows[k] == first_three(lat.lines[lat.pos + k]));
                    }
                },
                _ => {},
            }
        },
        _ => {},
    }
}

proof fn lemma_elements_from_names(ts: Seq<Seq<char>>, i: int)
    requires
        0 <= i <= ts.len(),
    ensures
        elements_from(ts, i) matches Ok(es) ==> es.len() == ts.len() - i && forall|j: int|
            0 <= j < es.len() ==> element_named(ts[i + j]) == Some(#[trigger] es[j]),
    decreases ts.len() - i,
{
    if i < ts.len() {
        lemma_elements_from_names(ts, i + 1);
        if let Some(e) = element_named(ts[i]) {
            if let Ok(rest) = elements_from(ts, i + 1) {
                let es = seq![e] + rest;
                assert forall|j: int| 0 <= j < es.len() implies element_named(ts[i + j]) == Some(#[trigger] es[j]) by {
                    if j > 0 {
                        assert(es[j] == rest[j - 1]);
                        assert(ts[i + j] == ts[(i + 1) + (j - 1)]);
                    }
                }
            }
        }
    }
}

proof fn lemma_counts_from_values(ts: Seq<Seq<char>>, i: int)
    requires
        0 <= i <= ts.len(),
    ensures
        counts_from(ts, i) matches Ok(cs) ==> cs.len() == ts.len() - i && forall|j: int|
            0 <= j < cs.len() ==> parsed_usize(ts[i + j]) == Some(#[trigger] cs[j]),
    decreases ts.len() - i,
{
    if i < ts.len() {
        lemma_counts_from_values(ts, i + 1);
        if let Some(c) = parsed_usize(ts[i]) {
            if let Ok(rest) = counts_from(ts, i + 1) {
                let cs = seq![c] + rest;
                assert forall|j: int| 0 <= j < cs.len() implies parsed_usize(ts[i + j]) == Some(#[trigger] cs[j]) by {
                    if j > 0 {
                        assert(cs[j] == rest[j - 1]);
                        assert(ts[i + j] == ts[(i + 1) + (j - 1)]);
                    }
                }
            }
        }
    }
}

/// A header pairs its element names with its counts as written: entry `i`
/// holds the element named by the `i`-th token of the element line (the
/// fifth line) and the count the `i`-th token of the count line (the sixth)
/// spells, as many entries as the shorter of the two lines has tokens; the
/// atom count is their total, and the coordinate convention is the one the
/// seventh line names.
pub proof fn lemma_header_pairs_names_with_counts(src: LinesView)
    ensures
        header_spec(src) matches Outcome::Value(h, _) ==> {
            let names = words(line_at(src, 4));
            let counts = words(line_at(src, 5));
            &&& h.n_atoms_per_element.len() == if names.len() <= counts.len() { names.len() } else { counts.len() }
            &&& forall|i: int| 0 <= i < h.n_atoms_per_element.len() ==> element_named(names[i]) == Some(
                (#[trigger] h.n_atoms_per_element[i]).0) && parsed_usize(counts[i]) == Some(h.n_atoms_per_element[i].1)
            &&& h.atom_count == count_sum(h.n_atoms_per_element)
            &&& coordinates_named(trim(line_at(src, 6))) == Some(h.coordinate_type)
        },
{
    match line_or(src, "Failed to read scaling factor"@) {
        Outcome::Value(_, p1) => {
            let lat = src.at(p1);
            lemma_read_triples_lines(lat, 3, "Failed to read lattice vector"@);
            match read_triples_spec(lat, 3, "Failed to read lattice vector"@) {
                Outcome::Value(rows, p2) => {
                    let names = words(line_at(src, 4));
                    let counts = words(line_at(src, 5));
                    assert(p2 == src.pos + 4);
                    lemma_elements_from_names(names, 0);
                    lemma_counts_from_values(counts, 0);
                    if let Outcome::Value(h, _) = header_spec(src) {
                        assert(src.lines[p2] == line_at(src, 4));
                        assert(src.lines[p2 + 1] == line_at(src, 5));
                        assert(src.lines[p2 + 2] == line_at(src, 6));
                        let es = elements_from(names, 0)->Ok_0;
                        let cs = counts_from(counts, 0)->Ok_0;
                        assert(h.n_atoms_per_element == zip_counts(es, cs));
                        assert forall|i: int| 0 <= i < h.n_atoms_per_element.len() implies element_named(names[i]) == Some(
                            (#[trigger] h.n_atoms_per_element[i]).0) && parsed_usize(counts[i]) == Some(
                            h.n_atoms_per_element[i].1) by {
                            assert(es[i] == h.n_atoms_per_element[i].0);
                            assert(cs[i] == h.n_atoms_per_element[i].1);
                        }
                    }
                },
                _ => {},
            }
        },
        _ => {},
    }
}

proof fn lemma_read_triples_lines(src: LinesView, n: nat, msg: Seq<char>)
    ensures
        read_triples_spec(src, n, msg) matches Outcome::Value(_, q) ==> {
            &&& q == src.pos + n
            &&& n > 0 ==> 0 <= src.pos && src.pos + n <= src.lines.len()
            &&& forall|k: int| 0 <= k < n ==> (#[trigger] triple_line(src.lines[src.pos + k])) is Value
        },
        read_triples_spec(src, n, msg) is Panic ==> exists|k: int|
            0 <= k < n && 0 <= src.pos && src.pos + k < src.lines.len() && (#[trigger] triple_line(
                src.lines[src.pos + k],
            )) is Panic,
    decreases n,
{
    if n > 0 {
        match line_or(src, msg) {
            Outcome::Value(line, p) => {
                lemma_read_triples_lines(src.at(p), (n - 1) as nat, msg);
                match read_triples_spec(src.at(p), (n - 1) as nat, msg) {
                    Outcome::Value(_, q) => {
                        if triple_line(line) is Value {
                            assert forall|k: int| 0 <= k < n implies (#[trigger] triple_line(src.lines[src.pos + k])) is Value by {
                                if k > 0 {
                                    assert(src.lines[src.pos + k] == src.lines[src.at(p).pos + (k - 1)]);
                                }
                            }
                        }
                    },
                    Outcome::Panic => {
                        if triple_line(line) is Value {
                            let k = choose|k: int|
                                0 <= k < n - 1 && 0 <= src.at(p).pos && src.at(p).pos + k < src.lines.len() && (
                                #[trigger] triple_line(src.lines[src.at(p).pos + k])) is Panic;
                            assert(src.lines[src.pos + (k + 1)] == src.lines[src.at(p).pos + k]);
                        }
                    },
                    _ => {},
                }
                if triple_line(line) is Panic {
                    assert(triple_line(src.lines[src.pos + 0]) is Panic);
                }
            },
            _ => {},
        }
    }
}

/// The line `i` lines after the cursor.
pub open spec fn line_at(src: LinesView, i: int) -> Seq<char> {
    src.lines[src.pos + i]
}

/// A well-formed header at the cursor: its seven lines are there, the
/// scaling factor is a floating-point literal, so is every token of the three
/// lattice vectors, every element name is known, every count is a count, and
/// the coordinate convention is named.
pub open spec fn header_well_formed(src: LinesView) -> bool {
    &&& 0 <= src.pos && src.pos + 7 <= src.lines.len()
    &&& float_literal(line_at(src, 0))
    &&& forall|r: int| 1 <= r <= 3 ==> bad_float_from(words(#[trigger] line_at(src, r)), 0) is None
    &&& elements_from(words(line_at(src, 4)), 0) is Ok
    &&& counts_from(words(line_at(src, 5)), 0) is Ok
    &&& coordinates_named(trim(line_at(src, 6))) is Some
}

/// What a header reader does not support: a lattice line with fewer than
/// three numbers, a coordinate line that asks for selective dynamics, or
/// counts whose sum does not fit in `usize`.
pub open spec fn header_unsupported(src: LinesView) -> bool {
    ||| exists|r: int|
        1 <= r <= 3 && 0 <= src.pos && src.pos + r < src.lines.len() && words(#[trigger] line_at(src, r)).len() < 3
    ||| 0 <= src.pos && src.pos + 6 < src.lines.len() && selective_dynamics(trim(line_at(src, 6)))
    ||| 0 <= src.pos && src.pos + 6 < src.lines.len() && match (
        elements_from(words(line_at(src, 4)), 0),
        counts_from(words(line_at(src, 5)), 0),
    ) {
        (Ok(es), Ok(cs)) => count_sum(zip_counts(es, cs)) > usize::MAX,
        _ => false,
    }
}

/// The header reader refuses every malformed header: a header reads only
/// where it is well formed, and a header that is not read is an error unless
/// it is one that the reader does not support (where it panics).
pub proof fn lemma_header_refuses_malformed(src: LinesView)
    ensures
        header_spec(src) is Value ==> header_well_formed(src),
        header_spec(src) is Panic ==> header_unsupported(src),
{
    match line_or(src, "Failed to read scaling factor"@) {
        Outcome::Value(sline, p1) => {
            if float_literal(sline) {
                let lat = src.at(p1);
                lemma_read_triples_lines(lat, 3, "Failed to read lattice vector"@);
                match read_triples_spec(lat, 3, "Failed to read lattice vector"@) {
                    Outcome::Value(rows, p2) => {
                        assert forall|r: int| 1 <= r <= 3 implies bad_float_from(words(#[trigger] line_at(src, r)), 0) is None by {
                            assert(line_at(src, r) == lat.lines[lat.pos + (r - 1)]);
                            assert(triple_line(lat.lines[lat.pos + (r - 1)]) is Value);
                        }
                    },
                    Outcome::Panic => {
                        let k = choose|k: int|
                            0 <= k < 3 && 0 <= lat.pos && lat.pos + k < lat.lines.len() && (#[trigger] triple_line(
                                lat.lines[lat.pos + k],
                            )) is Panic;
                        assert(line_at(src, k + 1) == lat.lines[lat.pos + k]);
                        assert(words(line_at(src, k + 1)).len() < 3);
                    },
                    _ => {},
                }
            }
        },
        _ => {},
    }
}

/// A POSCAR file that reads gives a whole configuration (see [`is_whole`]).
pub proof fn lemma_poscar_whole(src: LinesView)
    ensures
        poscar_spec(src) matches Outcome::Value(ReadResultVariantView::ReadResult { res }, _) ==> is_whole(res),
{
    match line_or(src, "File is empty"@) {
        Outcome::Value(_, p1) => {
            lemma_header_shape(src.at(p1));
            match header_spec(src.at(p1)) {
                Outcome::Value(h, p2) => {
                    lemma_read_triples_len(src.at(p2), h.atom_count as nat, "Failed to read ion position"@);
                },
                _ => {},
            }
        },
        _ => {},
    }
}

proof fn lemma_frames_share_header(src: LinesView, h: HeaderView)
    ensures
        frames_spec(src, h) matches Outcome::Value(fs, _) ==> fs.len() > 0 && forall|i: int|
            0 <= i < fs.len() ==> (#[trigger] fs[i]) == result_of(h, fs[i].positions) && fs[i].positions.len() == h.atom_count,
    decreases src.lines.len() - src.pos,
{
    lemma_read_triples_len(src, h.atom_count as nat, "Failed to read ion position"@);
    match positions_spec(src, h.atom_count as nat) {
        Outcome::Value(ps, p) => {
            if 0 <= src.pos && 0 <= p < src.lines.len() {
                lemma_read_triples_advances(src, h.atom_count as nat, "Failed to read ion position"@);
                lemma_frames_share_header(src.at(p + 1), h);
                match frames_spec(src.at(p + 1), h) {
                    Outcome::Value(rest, q) => {
                        let fs = seq![result_of(h, ps)] + rest;
                        assert forall|i: int| 0 <= i < fs.len() implies (#[trigger] fs[i]) == result_of(h, fs[i].positions) && fs[i].positions.len() == h.atom_count by {
                            if i > 0 {
                                assert(fs[i] == rest[i - 1]);
                            }
                        }
                    },
                    _ => {},
                }
            }
        },
        _ => {},
    }
}

/// An XDATCAR file that reads gives at least one configuration; every one
/// is whole and carries the element counts, lattice vectors and coordinate
/// convention of the first.
pub proof fn lemma_xdatcar_frames(src: LinesView)
    ensures
        xdatcar_spec(src) matches Outcome::Value(ReadResultVariantView::ReadResults { res }, _) ==> {
            &&& res.len() > 0
            &&& forall|i: int| 0 <= i < res.len() ==> {
                &&& is_whole(#[trigger] res[i])
                &&& res[i].element_count == res[0].element_count
                &&& res[i].cell_matrix == res[0].cell_matrix
                &&& res[i].coordinate_type == res[0].coordinate_type
            }
        },
{
    match line_or(src, "File is empty"@) {
        Outcome::Value(_, p1) => {
            lemma_header_shape(src.at(p1));
            match header_spec(src.at(p1)) {
                Outcome::Value(h, p2) => {
                    lemma_frames_share_header(src.at(p2), h);
                },
                _ => {},
            }
        },
        _ => {},
    }
}

/// The formats that can be read.
#[derive(Clone, Copy, Debug, PartialEq, Eq, Structural)]
pub enum Parser {
    Poscar,
    Xdatcar,
}

/// What reading `src` in the format `parser` gives.
pub open spec fn parser_spec(parser: Parser, src: LinesView) -> Outcome<ReadResultVariantView> {
    match parser {
        Parser::Poscar => poscar_spec(src),
        Parser::Xdatcar => xdatcar_spec(src),
    }
}

impl Parser {
    /// Reads the lines of a file in this format, telling apart the inputs
    /// that a reader of the format panics on.
    pub fn scan(&self, lines: &mut Lines) -> (r: Flow<ReadResultVariant>)
        ensures
            match parser_spec(*self, old(lines)@) {
                Outcome::Value(v, _) => (r matches Flow::Done(x) && x@ == v),
                Outcome::Failure(e) => (r matches Flow::Fail(x) && x@ == e),
                Outcome::Panic => r is Panic,
            },
    {
        match self {
            Parser::Poscar => scan_poscar(lines),
            Parser::Xdatcar => scan_xdatcar(lines),
        }
    }

    /// Reads the lines of a file in this format.
    pub fn read(&self, lines: &mut Lines) -> (r: Result<ReadResultVariant, Error>)
        requires
            !(parser_spec(*self, old(lines)@) is Panic),
        ensures
            match parser_spec(*self, old(lines)@) {
                Outcome::Value(v, _) => (r matches Ok(x) && x@ == v),
                Outcome::Failure(e) => (r matches Err(x) && x@ == e),
                Outcome::Panic => false,
            },
    {
        match self {
            Parser::Poscar => read_poscar(lines),
            Parser::Xdatcar => read_xdatcar(lines),
        }
    }
}

} // verus!
