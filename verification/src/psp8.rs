//! Layout of PSP8 pseudopotential files (ABINIT / PseudoDojo format).
//!
//! Line 1 is a title; line 2 holds `zatom zion pspdat`; line 3
//! `pspcod pspxc lmax lloc mmax r2well`; line 4 `rchrg fchrg qchrg`;
//! line 5 the number of projectors for each `l = 0..=lmax`; line 6 the
//! extension switch. Then, for each `l` but `lloc`, each projector has a
//! header line and `mmax` lines `index r value`; then the local potential
//! block, a header line and `mmax` lines `index r value`.
//!
//! This module finds every field and checks its syntax; it hands back the
//! byte spans of the numbers, which the caller converts to floats and to
//! the program's units (Ha and Bohr to eV and Å).
use vstd::prelude::*;
use vstd::string::StringSliceAdditionalSpecFns;
use crate::text::{
    check_float, float_error, lemma_lines_within, lemma_tokens_within, line_spans, lines, parse_i32, parse_usize, signed_from_str,
    spans_int, spans_within, split_whitespace, tokens, unsigned_from_str, FloatError, IntError,
};

verus! {

/// The fields of a PSP8 file that are read.
#[derive(Debug, Clone, Copy, PartialEq, Eq, Structural)]
pub enum Psp8Field {
    Zatom,
    Zion,
    Pspcod,
    Lmax,
    Lloc,
    Mmax,
    Fchrg,
    /// The number of projectors for this `l`.
    Nproj(i32),
    /// A radial grid point.
    R,
    /// A projector value.
    Projector,
    /// A local potential value.
    Vloc,
}

/// Why a field could not be read.
#[derive(Debug, Clone, Copy, PartialEq, Eq, Structural)]
pub enum FieldError {
    /// The line has no field at this index.
    Missing { index: usize },
    /// The field is no floating-point literal.
    Float(FloatError),
    /// The field is no integer of the wanted type.
    Int(IntError),
}

/// Why a PSP8 file could not be read.
#[derive(Debug, Clone, Copy, PartialEq, Eq, Structural)]
pub enum Psp8Error {
    /// Fewer than seven lines.
    TooShort,
    /// A field could not be read.
    Field(Psp8Field, FieldError),
    /// `pspcod` is not 8.
    WrongPspcod(i32),
    /// A projector header line is missing.
    EndOfFile,
    /// A projector data line is missing.
    EndOfData,
    /// A local potential data line is missing.
    EndOfLocal,
}

/// A field that must be a floating-point literal: the span of field `idx`.
pub open spec fn field_float(s: Seq<u8>, f: Seq<(int, int)>, idx: int) -> Result<(int, int), FieldError> {
    if idx >= f.len() {
        Err(FieldError::Missing { index: idx as usize })
    } else {
        match float_error(s, f[idx].0, f[idx].1) {
            Some(e) => Err(FieldError::Float(e)),
            None => Ok(f[idx]),
        }
    }
}

/// A field that must be an `i32`: its value.
pub open spec fn field_i32(s: Seq<u8>, f: Seq<(int, int)>, idx: int) -> Result<int, FieldError> {
    if idx >= f.len() {
        Err(FieldError::Missing { index: idx as usize })
    } else {
        match signed_from_str(s, f[idx].0, f[idx].1, i32::MIN as int, i32::MAX as int) {
            Err(e) => Err(FieldError::Int(e)),
            Ok(v) => Ok(v),
        }
    }
}

/// A field that must be a `usize`: its value.
pub open spec fn field_usize(s: Seq<u8>, f: Seq<(int, int)>, idx: int) -> Result<int, FieldError> {
    if idx >= f.len() {
        Err(FieldError::Missing { index: idx as usize })
    } else {
        match unsigned_from_str(s, f[idx].0, f[idx].1, usize::MAX as int) {
            Err(e) => Err(FieldError::Int(e)),
            Ok(v) => Ok(v),
        }
    }
}

/// The span of field `idx` of `fields`, which must be a floating-point
/// literal.
pub fn parse_field(s: &[u8], fields: &Vec<(usize, usize)>, idx: usize) -> (r: Result<
    (usize, usize),
    FieldError,
>)
    requires
        spans_in(fields@, s.len() as int),
    ensures
        match r {
            Ok(p) => field_float(s@, spans_int(fields@), idx as int) == Ok::<(int, int), FieldError>(
                (p.0 as int, p.1 as int),
            ),
            Err(e) => field_float(s@, spans_int(fields@), idx as int) == Err::<(int, int), FieldError>(
                e,
            ),
        },
{
    if idx >= fields.len() {
        return Err(FieldError::Missing { index: idx });
    }
    let (a, b) = fields[idx];
    match check_float(s, a, b) {
        Some(e) => Err(FieldError::Float(e)),
        None => Ok((a, b)),
    }
}

fn field_i32_in(s: &[u8], fields: &Vec<(usize, usize)>, idx: usize) -> (r: Result<i32, FieldError>)
    requires
        spans_in(fields@, s.len() as int),
    ensures
        match r {
            Ok(v) => field_i32(s@, spans_int(fields@), idx as int) == Ok::<int, FieldError>(v as int),
            Err(e) => field_i32(s@, spans_int(fields@), idx as int) == Err::<int, FieldError>(e),
        },
{
    if idx >= fields.len() {
        return Err(FieldError::Missing { index: idx });
    }
    let (a, b) = fields[idx];
    match parse_i32(s, a, b) {
        Err(e) => Err(FieldError::Int(e)),
        Ok(v) => Ok(v),
    }
}

fn field_usize_in(s: &[u8], fields: &Vec<(usize, usize)>, idx: usize) -> (r: Result<
    usize,
    FieldError,
>)
    requires
        spans_in(fields@, s.len() as int),
    ensures
        match r {
            Ok(v) => field_usize(s@, spans_int(fields@), idx as int) == Ok::<int, FieldError>(v as int),
            Err(e) => field_usize(s@, spans_int(fields@), idx as int) == Err::<int, FieldError>(e),
        },
{
    if idx >= fields.len() {
        return Err(FieldError::Missing { index: idx });
    }
    let (a, b) = fields[idx];
    match parse_usize(s, a, b) {
        Err(e) => Err(FieldError::Int(e)),
        Ok(v) => Ok(v),
    }
}

/// The fields of line `i`.
pub open spec fn line_fields(s: Seq<u8>, ls: Seq<(int, int)>, i: int) -> Seq<(int, int)> {
    tokens(s, ls[i].0, ls[i].1)
}

/// Reading `count` data lines `index r value` from line `idx` on: the
/// value (field 2) of each, and its `r` (field 1) when `with_r`, `r` read
/// first; `end` when a line is missing.
pub open spec fn data_lines(
    s: Seq<u8>,
    ls: Seq<(int, int)>,
    idx: int,
    count: int,
    with_r: bool,
    what: Psp8Field,
    end: Psp8Error,
) -> Result<(Seq<(int, int)>, Seq<(int, int)>), Psp8Error>
    decreases count,
{
    if count <= 0 {
        Ok((Seq::empty(), Seq::empty()))
    } else if idx < 0 || idx >= ls.len() {
        Err(end)
    } else {
        let f = line_fields(s, ls, idx);
        let r = if with_r {
            field_float(s, f, 1)
        } else {
            Ok((0, 0))
        };
        match r {
            Err(e) => Err(Psp8Error::Field(Psp8Field::R, e)),
            Ok(rp) => match field_float(s, f, 2) {
                Err(e) => Err(Psp8Error::Field(what, e)),
                Ok(v) => match data_lines(s, ls, idx + 1, count - 1, with_r, what, end) {
                    Err(e) => Err(e),
                    Ok(rest) => Ok(
                        (
                            if with_r {
                                seq![rp] + rest.0
                            } else {
                                rest.0
                            },
                            seq![v] + rest.1,
                        ),
                    ),
                },
            },
        }
    }
}

/// The radial grid, the projectors read so far and the next line.
pub type Psp8Progress = (Seq<(int, int)>, Seq<(int, Seq<(int, int)>)>, int);

/// Reading the projector blocks from channel `l`, projector `p` on, at
/// line `idx`: every `l` but `lloc` has `nproj[l]` projectors, each a
/// header line and `mmax` data lines; the radial grid is read with the
/// first projector.
pub open spec fn projectors_from(
    s: Seq<u8>,
    ls: Seq<(int, int)>,
    nproj: Seq<usize>,
    lloc: int,
    mmax: int,
    l: int,
    p: int,
    idx: int,
    r: Seq<(int, int)>,
    betas: Seq<(int, Seq<(int, int)>)>,
) -> Result<Psp8Progress, Psp8Error>
    decreases nproj.len() - l, nproj[l] - p,
{
    if l < 0 || l >= nproj.len() {
        Ok((r, betas, idx))
    } else if l == lloc || p >= nproj[l] {
        projectors_from(s, ls, nproj, lloc, mmax, l + 1, 0, idx, r, betas)
    } else if p < 0 {
        Ok((r, betas, idx))
    } else if idx < 0 || idx >= ls.len() {
        Err(Psp8Error::EndOfFile)
    } else {
        let first = betas.len() == 0;
        match data_lines(s, ls, idx + 1, mmax, first, Psp8Field::Projector, Psp8Error::EndOfData) {
            Err(e) => Err(e),
            Ok(d) => projectors_from(
                s,
                ls,
                nproj,
                lloc,
                mmax,
                l,
                p + 1,
                idx + 1 + mmax,
                if first {
                    d.0
                } else {
                    r
                },
                betas.push((l, d.1)),
            ),
        }
    }
}

/// Where everything of a PSP8 file stands. Spans index the file's bytes;
/// each span of a number is a floating-point literal.
pub struct Psp8Layout {
    pub zatom: (usize, usize),
    pub zion: (usize, usize),
    pub l_max: i32,
    pub lloc: i32,
    pub mmax: usize,
    pub fchrg: (usize, usize),
    /// The number of projectors for each `l = 0..=lmax`.
    pub nproj: Vec<usize>,
    /// The radial grid (Bohr), `mmax` points.
    pub r: Vec<(usize, usize)>,
    /// The projectors of every channel but `lloc`, in file order, with
    /// their `l` and `mmax` values each.
    pub betas: Vec<Psp8Beta>,
    /// The local potential (Ha), `mmax` values.
    pub vloc: Vec<(usize, usize)>,
}

/// One projector: its channel `l` and the spans of its values.
pub struct Psp8Beta {
    pub l: i32,
    pub values: Vec<(usize, usize)>,
}

/// A [`Psp8Layout`] with its spans read as integers.
pub struct Psp8Parsed {
    pub zatom: (int, int),
    pub zion: (int, int),
    pub l_max: int,
    pub lloc: int,
    pub mmax: int,
    pub fchrg: (int, int),
    pub nproj: Seq<usize>,
    pub r: Seq<(int, int)>,
    pub betas: Seq<(int, Seq<(int, int)>)>,
    pub vloc: Seq<(int, int)>,
}

pub open spec fn psp8_betas_int(b: Seq<Psp8Beta>) -> Seq<(int, Seq<(int, int)>)> {
    b.map_values(|p: Psp8Beta| (p.l as int, spans_int(p.values@)))
}

impl View for Psp8Layout {
    type V = Psp8Parsed;

    open spec fn view(&self) -> Psp8Parsed {
        Psp8Parsed {
            zatom: (self.zatom.0 as int, self.zatom.1 as int),
            zion: (self.zion.0 as int, self.zion.1 as int),
            l_max: self.l_max as int,
            lloc: self.lloc as int,
            mmax: self.mmax as int,
            fchrg: (self.fchrg.0 as int, self.fchrg.1 as int),
            nproj: self.nproj@,
            r: spans_int(self.r@),
            betas: psp8_betas_int(self.betas@),
            vloc: spans_int(self.vloc@),
        }
    }
}

/// The projector counts `nproj(l)` for `l` from `l` to `l_max`, fields of
/// line 5.
pub open spec fn nproj_from(s: Seq<u8>, f: Seq<(int, int)>, l: int, l_max: int) -> Result<
    Seq<usize>,
    Psp8Error,
>
    decreases l_max - l + 1,
{
    if l < 0 || l > l_max {
        Ok(Seq::empty())
    } else {
        match field_usize(s, f, l) {
            Err(e) => Err(Psp8Error::Field(Psp8Field::Nproj(l as i32), e)),
            Ok(np) => match nproj_from(s, f, l + 1, l_max) {
                Err(e) => Err(e),
                Ok(rest) => Ok(seq![np as usize] + rest),
            },
        }
    }
}

/// What reading the PSP8 text `s` gives: the header fields in file order,
/// then the projector blocks, then the local potential; the first failure
/// is the error.
pub open spec fn psp8_outcome(s: Seq<u8>) -> Result<Psp8Parsed, Psp8Error> {
    let ls = lines(s);
    if ls.len() < 7 {
        Err(Psp8Error::TooShort)
    } else {
        let f2 = line_fields(s, ls, 1);
        match field_float(s, f2, 0) {
            Err(e) => Err(Psp8Error::Field(Psp8Field::Zatom, e)),
            Ok(zatom) => match field_float(s, f2, 1) {
                Err(e) => Err(Psp8Error::Field(Psp8Field::Zion, e)),
                Ok(zion) => psp8_after_line2(s, ls, zatom, zion),
            },
        }
    }
}

/// [`psp8_outcome`] from line 3 on.
pub open spec fn psp8_after_line2(s: Seq<u8>, ls: Seq<(int, int)>, zatom: (int, int), zion: (
    int,
    int,
)) -> Result<Psp8Parsed, Psp8Error> {
    let f3 = line_fields(s, ls, 2);
    match field_i32(s, f3, 0) {
        Err(e) => Err(Psp8Error::Field(Psp8Field::Pspcod, e)),
        Ok(pspcod) => if pspcod != 8 {
            Err(Psp8Error::WrongPspcod(pspcod as i32))
        } else {
            match field_i32(s, f3, 2) {
                Err(e) => Err(Psp8Error::Field(Psp8Field::Lmax, e)),
                Ok(l_max) => match field_i32(s, f3, 3) {
                    Err(e) => Err(Psp8Error::Field(Psp8Field::Lloc, e)),
                    Ok(lloc) => match field_usize(s, f3, 4) {
                        Err(e) => Err(Psp8Error::Field(Psp8Field::Mmax, e)),
                        Ok(mmax) => match field_float(s, line_fields(s, ls, 3), 1) {
                            Err(e) => Err(Psp8Error::Field(Psp8Field::Fchrg, e)),
                            Ok(fchrg) => match nproj_from(s, line_fields(s, ls, 4), 0, l_max) {
                                Err(e) => Err(e),
                                Ok(nproj) => psp8_blocks(
                                    s,
                                    ls,
                                    zatom,
                                    zion,
                                    l_max,
                                    lloc,
                                    mmax,
                                    fchrg,
                                    nproj,
                                ),
                            },
                        },
                    },
                },
            }
        },
    }
}

/// [`psp8_outcome`] from the projector blocks on.
pub open spec fn psp8_blocks(
    s: Seq<u8>,
    ls: Seq<(int, int)>,
    zatom: (int, int),
    zion: (int, int),
    l_max: int,
    lloc: int,
    mmax: int,
    fchrg: (int, int),
    nproj: Seq<usize>,
) -> Result<Psp8Parsed, Psp8Error> {
    match projectors_from(s, ls, nproj, lloc, mmax, 0, 0, 6, Seq::empty(), Seq::empty()) {
        Err(e) => Err(e),
        Ok(prog) => {
            let idx = if prog.2 < ls.len() {
                prog.2 + 1
            } else {
                prog.2
            };
            let with_r = prog.1.len() == 0;
            match data_lines(s, ls, idx, mmax, with_r, Psp8Field::Vloc, Psp8Error::EndOfLocal) {
                Err(e) => Err(e),
                Ok(d) => Ok(
                    Psp8Parsed {
                        zatom,
                        zion,
                        l_max,
                        lloc,
                        mmax,
                        fchrg,
                        nproj,
                        r: if with_r {
                            d.0
                        } else {
                            prog.0
                        },
                        betas: prog.1,
                        vloc: d.1,
                    },
                ),
            }
        },
    }
}

/// Every span of `v` lies inside `s`.
pub open spec fn spans_in(v: Seq<(usize, usize)>, len: int) -> bool {
    forall|k: int| 0 <= k < v.len() ==> #[trigger] v[k].0 <= v[k].1 <= len
}

/// The fields of line `i`, as spans.
fn fields_of(s: &[u8], ls: &Vec<(usize, usize)>, i: usize) -> (f: Vec<(usize, usize)>)
    requires
        i < ls.len(),
        spans_in(ls@, s.len() as int),
    ensures
        spans_int(f@) == line_fields(s@, spans_int(ls@), i as int),
        spans_in(f@, s.len() as int),
{
    let (a, b) = ls[i];
    let f = split_whitespace(s, a, b);
    proof {
        assert(spans_int(f@) =~= tokens(s@, a as int, b as int));
        lemma_tokens_within(s@, a as int, b as int);
        assert forall|k: int| 0 <= k < f.len() implies #[trigger] f[k].0 <= f[k].1 <= s.len() by {
            assert(spans_int(f@)[k] == tokens(s@, a as int, b as int)[k]);
        }
    }
    f
}

fn data_lines_in(
    s: &[u8],
    ls: &Vec<(usize, usize)>,
    idx: usize,
    count: usize,
    with_r: bool,
    what: Psp8Field,
    end: Psp8Error,
) -> (r: Result<(Vec<(usize, usize)>, Vec<(usize, usize)>, usize), Psp8Error>)
    requires
        idx <= ls.len(),
        spans_in(ls@, s.len() as int),
    ensures
        match r {
            Ok(d) => data_lines(s@, spans_int(ls@), idx as int, count as int, with_r, what, end) == Ok::<
                (Seq<(int, int)>, Seq<(int, int)>),
                Psp8Error,
            >((spans_int(d.0@), spans_int(d.1@))) && d.2 == idx + count && d.2 <= ls.len(),
            Err(e) => data_lines(s@, spans_int(ls@), idx as int, count as int, with_r, what, end)
                == Err::<(Seq<(int, int)>, Seq<(int, int)>), Psp8Error>(e),
        },
{
    let ghost lsi = spans_int(ls@);
    let mut rs: Vec<(usize, usize)> = Vec::new();
    let mut vs: Vec<(usize, usize)> = Vec::new();
    let mut k: usize = 0;
    while k < count
        invariant
            k <= count,
            idx + k <= ls.len(),
            lsi == spans_int(ls@),
            spans_in(ls@, s.len() as int),
            !with_r ==> rs@.len() == 0,
            data_lines(s@, lsi, idx as int, count as int, with_r, what, end) == match data_lines(
                s@,
                lsi,
                idx + k,
                count - k,
                with_r,
                what,
                end,
            ) {
                Ok(rest) => Ok((spans_int(rs@) + rest.0, spans_int(vs@) + rest.1)),
                Err(e) => Err::<(Seq<(int, int)>, Seq<(int, int)>), Psp8Error>(e),
            },
        decreases count - k,
    {
        let i = idx + k;
        if i >= ls.len() {
            return Err(end);
        }
        let f = fields_of(s, ls, i);
        let rp = if with_r {
            match parse_field(s, &f, 1) {
                Err(e) => return Err(Psp8Error::Field(Psp8Field::R, e)),
                Ok(p) => p,
            }
        } else {
            (0, 0)
        };
        let v = match parse_field(s, &f, 2) {
            Err(e) => return Err(Psp8Error::Field(what, e)),
            Ok(p) => p,
        };
        let ghost old_rs = spans_int(rs@);
        let ghost old_vs = spans_int(vs@);
        let ghost next = data_lines(s@, lsi, i + 1, count - k - 1, with_r, what, end);
        if with_r {
            rs.push(rp);
        }
        vs.push(v);
        proof {
            assert(spans_int(vs@) =~= old_vs.push((v.0 as int, v.1 as int)));
            if with_r {
                assert(spans_int(rs@) =~= old_rs.push((rp.0 as int, rp.1 as int)));
            } else {
                assert(spans_int(rs@) =~= old_rs);
            }
            match next {
                Ok(rest) => {
                    assert(old_vs + (seq![(v.0 as int, v.1 as int)] + rest.1) =~= spans_int(vs@) + rest.1);
                    if with_r {
                        assert(old_rs + (seq![(rp.0 as int, rp.1 as int)] + rest.0) =~= spans_int(rs@) + rest.0);
                    }
                },
                Err(_) => {},
            }
        }
        k = k + 1;
    }
    proof {
        assert(spans_int(rs@) + Seq::<(int, int)>::empty() =~= spans_int(rs@));
        assert(spans_int(vs@) + Seq::<(int, int)>::empty() =~= spans_int(vs@));
    }
    Ok((rs, vs, idx + count))
}

/// The state after reading projector blocks, with integer spans.
pub open spec fn progress(r: Seq<(usize, usize)>, betas: Seq<Psp8Beta>, idx: usize) -> Psp8Progress {
    (spans_int(r), psp8_betas_int(betas), idx as int)
}

fn projectors_in(
    s: &[u8],
    ls: &Vec<(usize, usize)>,
    nproj: &Vec<usize>,
    lloc: i32,
    mmax: usize,
) -> (r: Result<(Vec<(usize, usize)>, Vec<Psp8Beta>, usize), Psp8Error>)
    requires
        6 <= ls.len(),
        spans_in(ls@, s.len() as int),
        nproj.len() <= 0x8000_0000,
    ensures
        match r {
            Ok(d) => projectors_from(
                s@,
                spans_int(ls@),
                nproj@,
                lloc as int,
                mmax as int,
                0,
                0,
                6,
                Seq::empty(),
                Seq::empty(),
            ) == Ok::<Psp8Progress, Psp8Error>(progress(d.0@, d.1@, d.2)) && d.2 <= ls.len(),
            Err(e) => projectors_from(
                s@,
                spans_int(ls@),
                nproj@,
                lloc as int,
                mmax as int,
                0,
                0,
                6,
                Seq::empty(),
                Seq::empty(),
            ) == Err::<Psp8Progress, Psp8Error>(e),
        },
{
    let ghost lsi = spans_int(ls@);
    let ghost total = projectors_from(
        s@,
        lsi,
        nproj@,
        lloc as int,
        mmax as int,
        0,
        0,
        6,
        Seq::empty(),
        Seq::empty(),
    );
    let mut r: Vec<(usize, usize)> = Vec::new();
    let mut betas: Vec<Psp8Beta> = Vec::new();
    let mut idx: usize = 6;
    let mut l: usize = 0;
    proof {
        assert(spans_int(r@) =~= Seq::<(int, int)>::empty());
        assert(psp8_betas_int(betas@) =~= Seq::<(int, Seq<(int, int)>)>::empty());
    }
    while l < nproj.len()
        invariant
            l <= nproj.len(),
            idx <= ls.len(),
            lsi == spans_int(ls@),
            spans_in(ls@, s.len() as int),
            total == projectors_from(
                s@,
                spans_int(ls@),
                nproj@,
                lloc as int,
                mmax as int,
                0,
                0,
                6,
                Seq::empty(),
                Seq::empty(),
            ),
            nproj.len() <= 0x8000_0000,
            total == projectors_from(
                s@,
                lsi,
                nproj@,
                lloc as int,
                mmax as int,
                l as int,
                0,
                idx as int,
                spans_int(r@),
                psp8_betas_int(betas@),
            ),
        decreases nproj.len() - l,
    {
        if !(lloc >= 0 && l == lloc as usize) {
            let np = nproj[l];
            let mut p: usize = 0;
            while p < np
                invariant
                    l < nproj.len(),
                    nproj.len() <= 0x8000_0000,
                    total == projectors_from(
                        s@,
                        spans_int(ls@),
                        nproj@,
                        lloc as int,
                        mmax as int,
                        0,
                        0,
                        6,
                        Seq::empty(),
                        Seq::empty(),
                    ),
                    np == nproj[l as int],
                    l as int != lloc as int,
                    p <= np,
                    idx <= ls.len(),
                    lsi == spans_int(ls@),
                    spans_in(ls@, s.len() as int),
                    total == projectors_from(
                        s@,
                        lsi,
                        nproj@,
                        lloc as int,
                        mmax as int,
                        l as int,
                        p as int,
                        idx as int,
                        spans_int(r@),
                        psp8_betas_int(betas@),
                    ),
                decreases np - p,
            {
                if idx >= ls.len() {
                    return Err(Psp8Error::EndOfFile);
                }
                let first = betas.len() == 0;
                let d = match data_lines_in(
                    s,
                    ls,
                    idx + 1,
                    mmax,
                    first,
                    Psp8Field::Projector,
                    Psp8Error::EndOfData,
                ) {
                    Err(e) => return Err(e),
                    Ok(d) => d,
                };
                let (rs, vs, next) = d;
                let ghost old_betas = psp8_betas_int(betas@);
                let ghost item = (l as int, spans_int(vs@));
                betas.push(Psp8Beta { l: l as i32, values: vs });
                proof {
                    assert(psp8_betas_int(betas@) =~= old_betas.push(item));
                }
                if first {
                    r = rs;
                }
                idx = next;
                p = p + 1;
            }
        }
        l = l + 1;
    }
    Ok((r, betas, idx))
}

/// Reads the layout of a PSP8 file from its text content (see
/// [`psp8_outcome`] for what is read, in which order, and which failure is
/// reported).
pub fn parse(content: &str) -> (r: Result<Psp8Layout, Psp8Error>)
    ensures
        match r {
            Ok(l) => psp8_outcome(content.spec_bytes()) == Ok::<Psp8Parsed, Psp8Error>(l@),
            Err(e) => psp8_outcome(content.spec_bytes()) == Err::<Psp8Parsed, Psp8Error>(e),
        },
{
    let s = content.as_bytes();
    let ls = line_spans(s);
    let ghost lsi = spans_int(ls@);
    proof {
        lemma_lines_within(s@, 0);
        assert forall|k: int| 0 <= k < ls.len() implies #[trigger] ls[k].0 <= ls[k].1 <= s.len() by {
            assert(lsi[k] == lines(s@)[k]);
        }
    }
    if ls.len() < 7 {
        return Err(Psp8Error::TooShort);
    }
    let f2 = fields_of(s, &ls, 1);
    let zatom = match parse_field(s, &f2, 0) {
        Err(e) => return Err(Psp8Error::Field(Psp8Field::Zatom, e)),
        Ok(p) => p,
    };
    let zion = match parse_field(s, &f2, 1) {
        Err(e) => return Err(Psp8Error::Field(Psp8Field::Zion, e)),
        Ok(p) => p,
    };
    let f3 = fields_of(s, &ls, 2);
    let pspcod = match field_i32_in(s, &f3, 0) {
        Err(e) => return Err(Psp8Error::Field(Psp8Field::Pspcod, e)),
        Ok(v) => v,
    };
    if pspcod != 8 {
        return Err(Psp8Error::WrongPspcod(pspcod));
    }
    let l_max = match field_i32_in(s, &f3, 2) {
        Err(e) => return Err(Psp8Error::Field(Psp8Field::Lmax, e)),
        Ok(v) => v,
    };
    let lloc = match field_i32_in(s, &f3, 3) {
        Err(e) => return Err(Psp8Error::Field(Psp8Field::Lloc, e)),
        Ok(v) => v,
    };
    let mmax = match field_usize_in(s, &f3, 4) {
        Err(e) => return Err(Psp8Error::Field(Psp8Field::Mmax, e)),
        Ok(v) => v,
    };
    let f4 = fields_of(s, &ls, 3);
    let fchrg = match parse_field(s, &f4, 1) {
        Err(e) => return Err(Psp8Error::Field(Psp8Field::Fchrg, e)),
        Ok(p) => p,
    };
    let f5 = fields_of(s, &ls, 4);
    let nproj = match nproj_in(s, &f5, l_max) {
        Err(e) => return Err(e),
        Ok(v) => v,
    };
    let (r, betas, idx) = match projectors_in(s, &ls, &nproj, lloc, mmax) {
        Err(e) => return Err(e),
        Ok(d) => d,
    };
    let start = if idx < ls.len() {
        idx + 1
    } else {
        idx
    };
    let with_r = betas.len() == 0;
    let d = match data_lines_in(s, &ls, start, mmax, with_r, Psp8Field::Vloc, Psp8Error::EndOfLocal) {
        Err(e) => return Err(e),
        Ok(d) => d,
    };
    let (local_r, vloc, _) = d;
    let r = if with_r {
        local_r
    } else {
        r
    };
    Ok(Psp8Layout { zatom, zion, l_max, lloc, mmax, fchrg, nproj, r, betas, vloc })
}

fn nproj_in(s: &[u8], f: &Vec<(usize, usize)>, l_max: i32) -> (r: Result<Vec<usize>, Psp8Error>)
    requires
        spans_in(f@, s.len() as int),
    ensures
        match r {
            Ok(v) => nproj_from(s@, spans_int(f@), 0, l_max as int) == Ok::<Seq<usize>, Psp8Error>(v@)
                && v.len() <= 0x8000_0000,
            Err(e) => nproj_from(s@, spans_int(f@), 0, l_max as int) == Err::<Seq<usize>, Psp8Error>(e),
        },
{
    let ghost fi = spans_int(f@);
    let mut out: Vec<usize> = Vec::new();
    if l_max < 0 {
        return Ok(out);
    }
    let mut l: i32 = 0;
    loop
        invariant
            0 <= l <= l_max,
            out.len() == l,
            fi == spans_int(f@),
            spans_in(f@, s.len() as int),
            nproj_from(s@, fi, 0, l_max as int) == match nproj_from(s@, fi, l as int, l_max as int) {
                Ok(rest) => Ok(out@ + rest),
                Err(e) => Err::<Seq<usize>, Psp8Error>(e),
            },
        decreases l_max - l,
    {
        let np = match field_usize_in(s, f, l as usize) {
            Err(e) => return Err(Psp8Error::Field(Psp8Field::Nproj(l), e)),
            Ok(v) => v,
        };
        let ghost old_out = out@;
        out.push(np);
        proof {
            match nproj_from(s@, fi, l + 1, l_max as int) {
                Ok(rest) => {
                    assert(old_out + (seq![np] + rest) =~= out@ + rest);
                },
                Err(_) => {},
            }
        }
        if l == l_max {
            proof {
                assert(out@ + Seq::<usize>::empty() =~= out@);
            }
            return Ok(out);
        }
        l = l + 1;
    }
}

proof fn lemma_data_lines_sizes(
    s: Seq<u8>,
    ls: Seq<(int, int)>,
    idx: int,
    count: int,
    with_r: bool,
    what: Psp8Field,
    end: Psp8Error,
)
    requires
        count >= 0,
        data_lines(s, ls, idx, count, with_r, what, end) is Ok,
    ensures
        match data_lines(s, ls, idx, count, with_r, what, end) {
            Ok(d) => d.1.len() == count && d.0.len() == (if with_r {
                count
            } else {
                0
            }),
            Err(_) => true,
        },
    decreases count,
{
    if count > 0 {
        lemma_data_lines_sizes(s, ls, idx + 1, count - 1, with_r, what, end);
    }
}

proof fn lemma_projectors_sizes(
    s: Seq<u8>,
    ls: Seq<(int, int)>,
    nproj: Seq<usize>,
    lloc: int,
    mmax: int,
    l: int,
    p: int,
    idx: int,
    r: Seq<(int, int)>,
    betas: Seq<(int, Seq<(int, int)>)>,
)
    requires
        mmax >= 0,
        0 <= l,
        0 <= p,
        betas.len() > 0 ==> r.len() == mmax,
        forall|k: int| 0 <= k < betas.len() ==> (#[trigger] betas[k]).1.len() == mmax && betas[k].0
            != lloc && 0 <= betas[k].0 < nproj.len(),
        projectors_from(s, ls, nproj, lloc, mmax, l, p, idx, r, betas) is Ok,
    ensures
        match projectors_from(s, ls, nproj, lloc, mmax, l, p, idx, r, betas) {
            Ok(out) => {
                &&& out.1.len() >= betas.len()
                &&& out.1.len() > 0 ==> out.0.len() == mmax
                &&& out.1.len() == 0 ==> out.0 == r
                &&& forall|k: int|
                    0 <= k < out.1.len() ==> (#[trigger] out.1[k]).1.len() == mmax && out.1[k].0
                        != lloc && 0 <= out.1[k].0 < nproj.len()
            },
            Err(_) => true,
        },
    decreases nproj.len() - l, nproj[l] - p,
{
    if l < nproj.len() {
        if l == lloc || p >= nproj[l] {
            lemma_projectors_sizes(s, ls, nproj, lloc, mmax, l + 1, 0, idx, r, betas);
        } else if 0 <= idx < ls.len() {
            let first = betas.len() == 0;
            let d = data_lines(s, ls, idx + 1, mmax, first, Psp8Field::Projector, Psp8Error::EndOfData);
            if d is Ok {
                lemma_data_lines_sizes(s, ls, idx + 1, mmax, first, Psp8Field::Projector, Psp8Error::EndOfData);
                let dd = d->Ok_0;
                let nb = betas.push((l, dd.1));
                assert forall|k: int| 0 <= k < nb.len() implies (#[trigger] nb[k]).1.len() == mmax && nb[k].0
                    != lloc && 0 <= nb[k].0 < nproj.len() by {
                    if k < betas.len() {
                        assert(nb[k] == betas[k]);
                    }
                }
                lemma_projectors_sizes(
                    s,
                    ls,
                    nproj,
                    lloc,
                    mmax,
                    l,
                    p + 1,
                    idx + 1 + mmax,
                    if first {
                        dd.0
                    } else {
                        r
                    },
                    nb,
                );
            }
        }
    }
}

proof fn lemma_nproj_len(s: Seq<u8>, f: Seq<(int, int)>, l: int, l_max: int)
    requires
        0 <= l,
        nproj_from(s, f, l, l_max) is Ok,
    ensures
        match nproj_from(s, f, l, l_max) {
            Ok(v) => v.len() == (if l > l_max {
                0
            } else {
                l_max - l + 1
            }),
            Err(_) => true,
        },
    decreases l_max - l + 1,
{
    if l <= l_max {
        lemma_nproj_len(s, f, l + 1, l_max);
    }
}

/// A PSP8 file that reads gives `mmax` radial grid points and `mmax`
/// local potential values, one projector count for each `l` in
/// `0..=lmax`, and projectors of `mmax` values each, for channels in
/// `0..=lmax` other than `lloc`.
pub proof fn lemma_psp8_block_sizes(s: Seq<u8>)
    requires
        psp8_outcome(s) is Ok,
    ensures
        match psp8_outcome(s) {
            Ok(p) => {
                &&& p.r.len() == p.mmax
                &&& p.vloc.len() == p.mmax
                &&& p.nproj.len() == (if p.l_max < 0 {
                    0
                } else {
                    p.l_max + 1
                })
                &&& forall|k: int|
                    0 <= k < p.betas.len() ==> (#[trigger] p.betas[k]).1.len() == p.mmax && p.betas[k].0
                        != p.lloc && 0 <= p.betas[k].0 <= p.l_max
            },
            Err(_) => true,
        },
{
    let ls = lines(s);
    let f2 = line_fields(s, ls, 1);
    let zatom = field_float(s, f2, 0)->Ok_0;
    let zion = field_float(s, f2, 1)->Ok_0;
    assert(psp8_outcome(s) == psp8_after_line2(s, ls, zatom, zion));
    let f3 = line_fields(s, ls, 2);
    let l_max = field_i32(s, f3, 2)->Ok_0;
    let lloc = field_i32(s, f3, 3)->Ok_0;
    let mmax = field_usize(s, f3, 4)->Ok_0;
    let fchrg = field_float(s, line_fields(s, ls, 3), 1)->Ok_0;
    let nproj = nproj_from(s, line_fields(s, ls, 4), 0, l_max)->Ok_0;
    assert(psp8_outcome(s) == psp8_blocks(s, ls, zatom, zion, l_max, lloc, mmax, fchrg, nproj));
    let f3i = f3[4];
    assert(mmax >= 0) by {
        crate::text::lemma_unsigned_nonnegative(s, f3i.0, f3i.1, usize::MAX as int);
    }
    lemma_nproj_len(s, line_fields(s, ls, 4), 0, l_max);
    lemma_projectors_sizes(s, ls, nproj, lloc, mmax, 0, 0, 6, Seq::empty(), Seq::empty());
    let prog = projectors_from(s, ls, nproj, lloc, mmax, 0, 0, 6, Seq::empty(), Seq::empty())->Ok_0;
    let idx = if prog.2 < ls.len() {
        prog.2 + 1
    } else {
        prog.2
    };
    let with_r = prog.1.len() == 0;
    lemma_data_lines_sizes(s, ls, idx, mmax, with_r, Psp8Field::Vloc, Psp8Error::EndOfLocal);
}

/// The channels of the projectors a PSP8 file declares, from channel `l`
/// on: `nproj[l]` times `l`, then `nproj[l + 1]` times `l + 1`, and so on,
/// leaving out the local channel `lloc`.
pub open spec fn channel_run(nproj: Seq<usize>, lloc: int, l: int) -> Seq<int>
    decreases nproj.len() - l,
{
    if l < 0 || l >= nproj.len() {
        Seq::empty()
    } else {
        (if l == lloc {
            Seq::empty()
        } else {
            Seq::new(nproj[l] as nat, |_k: int| l)
        }) + channel_run(nproj, lloc, l + 1)
    }
}

/// What is left of [`channel_run`] from projector `p` of channel `l` on.
pub open spec fn channel_rest(nproj: Seq<usize>, lloc: int, l: int, p: int) -> Seq<int> {
    if l < 0 || l >= nproj.len() {
        Seq::empty()
    } else {
        (if l == lloc {
            Seq::empty()
        } else {
            Seq::new((nproj[l] - p) as nat, |_k: int| l)
        }) + channel_run(nproj, lloc, l + 1)
    }
}

pub open spec fn beta_channels(b: Seq<(int, Seq<(int, int)>)>) -> Seq<int> {
    b.map_values(|x: (int, Seq<(int, int)>)| x.0)
}

proof fn lemma_projector_channels(
    s: Seq<u8>,
    ls: Seq<(int, int)>,
    nproj: Seq<usize>,
    lloc: int,
    mmax: int,
    l: int,
    p: int,
    idx: int,
    r: Seq<(int, int)>,
    betas: Seq<(int, Seq<(int, int)>)>,
)
    requires
        0 <= l,
        l < nproj.len() ==> 0 <= p <= nproj[l],
        projectors_from(s, ls, nproj, lloc, mmax, l, p, idx, r, betas) is Ok,
    ensures
        beta_channels(projectors_from(s, ls, nproj, lloc, mmax, l, p, idx, r, betas)->Ok_0.1)
            == beta_channels(betas) + channel_rest(nproj, lloc, l, p),
    decreases nproj.len() - l, nproj[l] - p,
{
    if l >= nproj.len() {
        assert(beta_channels(betas) + channel_rest(nproj, lloc, l, p) =~= beta_channels(betas));
    } else if l == lloc || p >= nproj[l] {
        lemma_projector_channels(s, ls, nproj, lloc, mmax, l + 1, 0, idx, r, betas);
        if l + 1 < nproj.len() && l + 1 != lloc {
            assert(Seq::new((nproj[l + 1] - 0) as nat, |_k: int| l + 1) =~= Seq::new(
                nproj[l + 1] as nat,
                |_k: int| l + 1,
            ));
        }
        assert(channel_rest(nproj, lloc, l + 1, 0) =~= channel_run(nproj, lloc, l + 1));
        if l != lloc {
            assert(Seq::new((nproj[l] - p) as nat, |_k: int| l) =~= Seq::<int>::empty());
        }
        assert(channel_rest(nproj, lloc, l, p) =~= channel_run(nproj, lloc, l + 1));
    } else {
        let first = betas.len() == 0;
        let dd = data_lines(s, ls, idx + 1, mmax, first, Psp8Field::Projector, Psp8Error::EndOfData)->Ok_0;
        let nb = betas.push((l, dd.1));
        lemma_projector_channels(
            s,
            ls,
            nproj,
            lloc,
            mmax,
            l,
            p + 1,
            idx + 1 + mmax,
            if first {
                dd.0
            } else {
                r
            },
            nb,
        );
        assert(beta_channels(nb) =~= beta_channels(betas).push(l));
        assert(seq![l] + Seq::new((nproj[l] - (p + 1)) as nat, |_k: int| l) =~= Seq::new(
            (nproj[l] - p) as nat,
            |_k: int| l,
        ));
        assert(beta_channels(nb) + channel_rest(nproj, lloc, l, p + 1) =~= beta_channels(betas)
            + channel_rest(nproj, lloc, l, p));
    }
}

proof fn lemma_nproj_fields(s: Seq<u8>, f: Seq<(int, int)>, l: int, l_max: int, k: int)
    requires
        0 <= l <= k <= l_max,
        nproj_from(s, f, l, l_max) is Ok,
    ensures
        field_usize(s, f, k) == Ok::<int, FieldError>(nproj_from(s, f, l, l_max)->Ok_0[k - l] as int),
    decreases k - l,
{
    let np = field_usize(s, f, l)->Ok_0;
    let ff = f[l];
    crate::text::lemma_unsigned_nonnegative(s, ff.0, ff.1, usize::MAX as int);
    if l < k {
        lemma_nproj_fields(s, f, l + 1, l_max, k);
        lemma_nproj_len(s, f, l + 1, l_max);
        let rest = nproj_from(s, f, l + 1, l_max)->Ok_0;
        assert((seq![np as usize] + rest)[k - l] == rest[k - (l + 1)]);
    }
}

/// The header of line 3 decides the layout: a PSP8 file that reads has
/// `lmax`, `lloc` and `mmax` equal to fields 3, 4 and 5 of line 3
/// (`pspcod pspxc lmax lloc mmax r2well`), and its projectors are, in file
/// order, `nproj[0]` of channel 0, `nproj[1]` of channel 1, ..., up to
/// `lmax`, with the local channel `lloc` left out. The other header
/// numbers come from their documented places too: `zatom` and `zion` are
/// fields 1 and 2 of line 2, `fchrg` field 2 of line 4, and `nproj[l]`
/// field `l + 1` of line 5.
pub proof fn lemma_psp8_line3_and_channels(s: Seq<u8>)
    requires
        psp8_outcome(s) is Ok,
    ensures
        ({
            let f3 = line_fields(s, lines(s), 2);
            let p = psp8_outcome(s)->Ok_0;
            &&& field_i32(s, f3, 2) == Ok::<int, FieldError>(p.l_max)
            &&& field_i32(s, f3, 3) == Ok::<int, FieldError>(p.lloc)
            &&& field_usize(s, f3, 4) == Ok::<int, FieldError>(p.mmax)
            &&& beta_channels(p.betas) == channel_run(p.nproj, p.lloc, 0)
            &&& field_float(s, line_fields(s, lines(s), 1), 0) == Ok::<(int, int), FieldError>(p.zatom)
            &&& field_float(s, line_fields(s, lines(s), 1), 1) == Ok::<(int, int), FieldError>(p.zion)
            &&& field_float(s, line_fields(s, lines(s), 3), 1) == Ok::<(int, int), FieldError>(p.fchrg)
            &&& forall|l: int|
                0 <= l < p.nproj.len() ==> field_usize(s, line_fields(s, lines(s), 4), l) == Ok::<
                    int,
                    FieldError,
                >(#[trigger] p.nproj[l] as int)
        }),
{
    let ls = lines(s);
    let f2 = line_fields(s, ls, 1);
    let zatom = field_float(s, f2, 0)->Ok_0;
    let zion = field_float(s, f2, 1)->Ok_0;
    assert(psp8_outcome(s) == psp8_after_line2(s, ls, zatom, zion));
    let f3 = line_fields(s, ls, 2);
    let l_max = field_i32(s, f3, 2)->Ok_0;
    let lloc = field_i32(s, f3, 3)->Ok_0;
    let mmax = field_usize(s, f3, 4)->Ok_0;
    let fchrg = field_float(s, line_fields(s, ls, 3), 1)->Ok_0;
    let nproj = nproj_from(s, line_fields(s, ls, 4), 0, l_max)->Ok_0;
    assert(psp8_outcome(s) == psp8_blocks(s, ls, zatom, zion, l_max, lloc, mmax, fchrg, nproj));
    lemma_projector_channels(s, ls, nproj, lloc, mmax, 0, 0, 6, Seq::empty(), Seq::empty());
    lemma_nproj_len(s, line_fields(s, ls, 4), 0, l_max);
    assert forall|l: int| 0 <= l < nproj.len() implies field_usize(s, line_fields(s, ls, 4), l)
        == Ok::<int, FieldError>(#[trigger] nproj[l] as int) by {
        lemma_nproj_fields(s, line_fields(s, ls, 4), 0, l_max, l);
    }
    if nproj.len() > 0 && 0 != lloc {
        assert(Seq::new((nproj[0] - 0) as nat, |_k: int| 0int) =~= Seq::new(
            nproj[0] as nat,
            |_k: int| 0int,
        ));
    }
    assert(channel_rest(nproj, lloc, 0, 0) =~= channel_run(nproj, lloc, 0));
    assert(beta_channels(Seq::empty()) =~= Seq::<int>::empty());
    assert(Seq::<int>::empty() + channel_run(nproj, lloc, 0) =~= channel_run(nproj, lloc, 0));
}

/// Every span of `t` is a floating-point literal of `s`.
pub open spec fn literals(s: Seq<u8>, t: Seq<(int, int)>) -> bool {
    forall|k: int| 0 <= k < t.len() ==> float_error(s, (#[trigger] t[k]).0, t[k].1) is None
}

proof fn lemma_data_lines_literals(
    s: Seq<u8>,
    ls: Seq<(int, int)>,
    idx: int,
    count: int,
    with_r: bool,
    what: Psp8Field,
    end: Psp8Error,
)
    requires
        data_lines(s, ls, idx, count, with_r, what, end) is Ok,
    ensures
        literals(s, data_lines(s, ls, idx, count, with_r, what, end)->Ok_0.0),
        literals(s, data_lines(s, ls, idx, count, with_r, what, end)->Ok_0.1),
    decreases count,
{
    if count > 0 {
        lemma_data_lines_literals(s, ls, idx + 1, count - 1, with_r, what, end);
        let f = line_fields(s, ls, idx);
        let rest = data_lines(s, ls, idx + 1, count - 1, with_r, what, end)->Ok_0;
        let v = field_float(s, f, 2)->Ok_0;
        let vs = seq![v] + rest.1;
        assert forall|k: int| 0 <= k < vs.len() implies float_error(s, (#[trigger] vs[k]).0, vs[k].1) is None by {
            if k > 0 {
                assert(vs[k] == rest.1[k - 1]);
            }
        }
        if with_r {
            let rp = field_float(s, f, 1)->Ok_0;
            let rs = seq![rp] + rest.0;
            assert forall|k: int| 0 <= k < rs.len() implies float_error(s, (#[trigger] rs[k]).0, rs[k].1) is None by {
                if k > 0 {
                    assert(rs[k] == rest.0[k - 1]);
                }
            }
        }
    }
}

proof fn lemma_projectors_literals(
    s: Seq<u8>,
    ls: Seq<(int, int)>,
    nproj: Seq<usize>,
    lloc: int,
    mmax: int,
    l: int,
    p: int,
    idx: int,
    r: Seq<(int, int)>,
    betas: Seq<(int, Seq<(int, int)>)>,
)
    requires
        0 <= l,
        0 <= p,
        literals(s, r),
        forall|k: int| 0 <= k < betas.len() ==> literals(s, (#[trigger] betas[k]).1),
        projectors_from(s, ls, nproj, lloc, mmax, l, p, idx, r, betas) is Ok,
    ensures
        literals(s, projectors_from(s, ls, nproj, lloc, mmax, l, p, idx, r, betas)->Ok_0.0),
        forall|k: int|
            0 <= k < projectors_from(s, ls, nproj, lloc, mmax, l, p, idx, r, betas)->Ok_0.1.len()
                ==> literals(
                s,
                (#[trigger] projectors_from(s, ls, nproj, lloc, mmax, l, p, idx, r, betas)->Ok_0.1[k]).1,
            ),
    decreases nproj.len() - l, nproj[l] - p,
{
    if l < nproj.len() {
        if l == lloc || p >= nproj[l] {
            lemma_projectors_literals(s, ls, nproj, lloc, mmax, l + 1, 0, idx, r, betas);
        } else if 0 <= idx < ls.len() {
            let first = betas.len() == 0;
            let d = data_lines(s, ls, idx + 1, mmax, first, Psp8Field::Projector, Psp8Error::EndOfData);
            lemma_data_lines_literals(s, ls, idx + 1, mmax, first, Psp8Field::Projector, Psp8Error::EndOfData);
            let dd = d->Ok_0;
            let nb = betas.push((l, dd.1));
            assert forall|k: int| 0 <= k < nb.len() implies literals(s, (#[trigger] nb[k]).1) by {
                if k < betas.len() {
                    assert(nb[k] == betas[k]);
                }
            }
            lemma_projectors_literals(
                s,
                ls,
                nproj,
                lloc,
                mmax,
                l,
                p + 1,
                idx + 1 + mmax,
                if first {
                    dd.0
                } else {
                    r
                },
                nb,
            );
        }
    }
}

/// Every span of a number in a PSP8 layout that reads is a floating-point
/// literal, so converting it to a float cannot fail.
pub proof fn lemma_psp8_numbers_are_literals(s: Seq<u8>)
    requires
        psp8_outcome(s) is Ok,
    ensures
        match psp8_outcome(s) {
            Ok(p) => {
                &&& float_error(s, p.zatom.0, p.zatom.1) is None
                &&& float_error(s, p.zion.0, p.zion.1) is None
                &&& float_error(s, p.fchrg.0, p.fchrg.1) is None
                &&& literals(s, p.r)
                &&& literals(s, p.vloc)
                &&& forall|k: int| 0 <= k < p.betas.len() ==> literals(s, (#[trigger] p.betas[k]).1)
            },
            Err(_) => true,
        },
{
    let ls = lines(s);
    let f2 = line_fields(s, ls, 1);
    let zatom = field_float(s, f2, 0)->Ok_0;
    let zion = field_float(s, f2, 1)->Ok_0;
    assert(psp8_outcome(s) == psp8_after_line2(s, ls, zatom, zion));
    let f3 = line_fields(s, ls, 2);
    let l_max = field_i32(s, f3, 2)->Ok_0;
    let lloc = field_i32(s, f3, 3)->Ok_0;
    let mmax = field_usize(s, f3, 4)->Ok_0;
    let fchrg = field_float(s, line_fields(s, ls, 3), 1)->Ok_0;
    let nproj = nproj_from(s, line_fields(s, ls, 4), 0, l_max)->Ok_0;
    assert(psp8_outcome(s) == psp8_blocks(s, ls, zatom, zion, l_max, lloc, mmax, fchrg, nproj));
    lemma_projectors_literals(s, ls, nproj, lloc, mmax, 0, 0, 6, Seq::empty(), Seq::empty());
    let prog = projectors_from(s, ls, nproj, lloc, mmax, 0, 0, 6, Seq::empty(), Seq::empty())->Ok_0;
    let idx = if prog.2 < ls.len() {
        prog.2 + 1
    } else {
        prog.2
    };
    let with_r = prog.1.len() == 0;
    lemma_data_lines_literals(s, ls, idx, mmax, with_r, Psp8Field::Vloc, Psp8Error::EndOfLocal);
}

} // verus!
