//! Layout of UPF v2 pseudopotential files (Quantum ESPRESSO's XML format).
//!
//! A UPF file is shallow XML read with plain substring searches: header
//! attributes `name="value"`, and numeric blocks between `<TAG ...>` and
//! `</TAG>`. This module finds every field and checks its syntax; it hands
//! back the byte spans of the numbers, which the caller converts to floats
//! and to the program's units (Ry and Bohr to eV and Å).
use vstd::prelude::*;
use vstd::string::StringSliceAdditionalSpecFns;
use crate::text::{
    byte_pos, check_float, lemma_tokens_within, contains, decimal, find_byte, find_in, find_pos, float_error,
    opt_int, parse_i32, parse_usize, push_all, push_decimal, signed_from_str, spans_int,
    split_whitespace, tokens, trim, trim_span, unsigned_from_str, FloatError, IntError,
};

verus! {

// ---------------------------------------------------------------------------
// Names and tags
// ---------------------------------------------------------------------------

/// The bytes of `element`.
pub open spec fn element_name() -> Seq<u8> {
    seq![0x65u8, 0x6c, 0x65, 0x6d, 0x65, 0x6e, 0x74]
}

fn element_name_bytes() -> (v: Vec<u8>)
    ensures
        v@ == element_name(),
{
    let v: Vec<u8> = vec![0x65u8, 0x6c, 0x65, 0x6d, 0x65, 0x6e, 0x74];
    proof {
        assert(v@ =~= element_name());
    }
    v
}

/// The bytes of `z_valence`.
pub open spec fn z_valence_name() -> Seq<u8> {
    seq![0x7au8, 0x5f, 0x76, 0x61, 0x6c, 0x65, 0x6e, 0x63, 0x65]
}

fn z_valence_name_bytes() -> (v: Vec<u8>)
    ensures
        v@ == z_valence_name(),
{
    let v: Vec<u8> = vec![0x7au8, 0x5f, 0x76, 0x61, 0x6c, 0x65, 0x6e, 0x63, 0x65];
    proof {
        assert(v@ =~= z_valence_name());
    }
    v
}

/// The bytes of `l_max`.
pub open spec fn l_max_name() -> Seq<u8> {
    seq![0x6cu8, 0x5f, 0x6d, 0x61, 0x78]
}

fn l_max_name_bytes() -> (v: Vec<u8>)
    ensures
        v@ == l_max_name(),
{
    let v: Vec<u8> = vec![0x6cu8, 0x5f, 0x6d, 0x61, 0x78];
    proof {
        assert(v@ =~= l_max_name());
    }
    v
}

/// The bytes of `number_of_proj`.
pub open spec fn number_of_proj_name() -> Seq<u8> {
    seq![0x6eu8, 0x75, 0x6d, 0x62, 0x65, 0x72, 0x5f, 0x6f, 0x66, 0x5f, 0x70, 0x72, 0x6f, 0x6a]
}

fn number_of_proj_name_bytes() -> (v: Vec<u8>)
    ensures
        v@ == number_of_proj_name(),
{
    let v: Vec<u8> = vec![0x6eu8, 0x75, 0x6d, 0x62, 0x65, 0x72, 0x5f, 0x6f, 0x66, 0x5f, 0x70, 0x72, 0x6f, 0x6a];
    proof {
        assert(v@ =~= number_of_proj_name());
    }
    v
}

/// The bytes of `mesh_size`.
pub open spec fn mesh_size_name() -> Seq<u8> {
    seq![0x6du8, 0x65, 0x73, 0x68, 0x5f, 0x73, 0x69, 0x7a, 0x65]
}

fn mesh_size_name_bytes() -> (v: Vec<u8>)
    ensures
        v@ == mesh_size_name(),
{
    let v: Vec<u8> = vec![0x6du8, 0x65, 0x73, 0x68, 0x5f, 0x73, 0x69, 0x7a, 0x65];
    proof {
        assert(v@ =~= mesh_size_name());
    }
    v
}

/// The bytes of `angular_momentum`.
pub open spec fn angular_momentum_name() -> Seq<u8> {
    seq![0x61u8, 0x6e, 0x67, 0x75, 0x6c, 0x61, 0x72, 0x5f, 0x6d, 0x6f, 0x6d, 0x65, 0x6e, 0x74, 0x75, 0x6d]
}

fn angular_momentum_name_bytes() -> (v: Vec<u8>)
    ensures
        v@ == angular_momentum_name(),
{
    let v: Vec<u8> = vec![0x61u8, 0x6e, 0x67, 0x75, 0x6c, 0x61, 0x72, 0x5f, 0x6d, 0x6f, 0x6d, 0x65, 0x6e, 0x74, 0x75, 0x6d];
    proof {
        assert(v@ =~= angular_momentum_name());
    }
    v
}

/// The bytes of `PP_R`.
pub open spec fn pp_r_tag() -> Seq<u8> {
    seq![0x50u8, 0x50, 0x5f, 0x52]
}

fn pp_r_tag_bytes() -> (v: Vec<u8>)
    ensures
        v@ == pp_r_tag(),
{
    let v: Vec<u8> = vec![0x50u8, 0x50, 0x5f, 0x52];
    proof {
        assert(v@ =~= pp_r_tag());
    }
    v
}

/// The bytes of `PP_RAB`.
pub open spec fn pp_rab_tag() -> Seq<u8> {
    seq![0x50u8, 0x50, 0x5f, 0x52, 0x41, 0x42]
}

fn pp_rab_tag_bytes() -> (v: Vec<u8>)
    ensures
        v@ == pp_rab_tag(),
{
    let v: Vec<u8> = vec![0x50u8, 0x50, 0x5f, 0x52, 0x41, 0x42];
    proof {
        assert(v@ =~= pp_rab_tag());
    }
    v
}

/// The bytes of `PP_LOCAL`.
pub open spec fn pp_local_tag() -> Seq<u8> {
    seq![0x50u8, 0x50, 0x5f, 0x4c, 0x4f, 0x43, 0x41, 0x4c]
}

fn pp_local_tag_bytes() -> (v: Vec<u8>)
    ensures
        v@ == pp_local_tag(),
{
    let v: Vec<u8> = vec![0x50u8, 0x50, 0x5f, 0x4c, 0x4f, 0x43, 0x41, 0x4c];
    proof {
        assert(v@ =~= pp_local_tag());
    }
    v
}

/// The bytes of `PP_BETA.`.
pub open spec fn pp_beta_prefix() -> Seq<u8> {
    seq![0x50u8, 0x50, 0x5f, 0x42, 0x45, 0x54, 0x41, 0x2e]
}

fn pp_beta_prefix_bytes() -> (v: Vec<u8>)
    ensures
        v@ == pp_beta_prefix(),
{
    let v: Vec<u8> = vec![0x50u8, 0x50, 0x5f, 0x42, 0x45, 0x54, 0x41, 0x2e];
    proof {
        assert(v@ =~= pp_beta_prefix());
    }
    v
}

/// The bytes of `PP_DIJ`.
pub open spec fn pp_dij_tag() -> Seq<u8> {
    seq![0x50u8, 0x50, 0x5f, 0x44, 0x49, 0x4a]
}

fn pp_dij_tag_bytes() -> (v: Vec<u8>)
    ensures
        v@ == pp_dij_tag(),
{
    let v: Vec<u8> = vec![0x50u8, 0x50, 0x5f, 0x44, 0x49, 0x4a];
    proof {
        assert(v@ =~= pp_dij_tag());
    }
    v
}

/// The bytes of `PP_RHOATOM`.
pub open spec fn pp_rhoatom_tag() -> Seq<u8> {
    seq![0x50u8, 0x50, 0x5f, 0x52, 0x48, 0x4f, 0x41, 0x54, 0x4f, 0x4d]
}

fn pp_rhoatom_tag_bytes() -> (v: Vec<u8>)
    ensures
        v@ == pp_rhoatom_tag(),
{
    let v: Vec<u8> = vec![0x50u8, 0x50, 0x5f, 0x52, 0x48, 0x4f, 0x41, 0x54, 0x4f, 0x4d];
    proof {
        assert(v@ =~= pp_rhoatom_tag());
    }
    v
}

/// The bytes of `PP_NLCC`.
pub open spec fn pp_nlcc_tag() -> Seq<u8> {
    seq![0x50u8, 0x50, 0x5f, 0x4e, 0x4c, 0x43, 0x43]
}

fn pp_nlcc_tag_bytes() -> (v: Vec<u8>)
    ensures
        v@ == pp_nlcc_tag(),
{
    let v: Vec<u8> = vec![0x50u8, 0x50, 0x5f, 0x4e, 0x4c, 0x43, 0x43];
    proof {
        assert(v@ =~= pp_nlcc_tag());
    }
    v
}

/// The bytes of `core_correction="T"`.
pub open spec fn core_correction_upper() -> Seq<u8> {
    seq![0x63u8, 0x6f, 0x72, 0x65, 0x5f, 0x63, 0x6f, 0x72, 0x72, 0x65, 0x63, 0x74, 0x69, 0x6f, 0x6e, 0x3d, 0x22, 0x54, 0x22]
}

fn core_correction_upper_bytes() -> (v: Vec<u8>)
    ensures
        v@ == core_correction_upper(),
{
    let v: Vec<u8> = vec![0x63u8, 0x6f, 0x72, 0x65, 0x5f, 0x63, 0x6f, 0x72, 0x72, 0x65, 0x63, 0x74, 0x69, 0x6f, 0x6e, 0x3d, 0x22, 0x54, 0x22];
    proof {
        assert(v@ =~= core_correction_upper());
    }
    v
}

/// The bytes of `core_correction="t"`.
pub open spec fn core_correction_lower() -> Seq<u8> {
    seq![0x63u8, 0x6f, 0x72, 0x65, 0x5f, 0x63, 0x6f, 0x72, 0x72, 0x65, 0x63, 0x74, 0x69, 0x6f, 0x6e, 0x3d, 0x22, 0x74, 0x22]
}

fn core_correction_lower_bytes() -> (v: Vec<u8>)
    ensures
        v@ == core_correction_lower(),
{
    let v: Vec<u8> = vec![0x63u8, 0x6f, 0x72, 0x65, 0x5f, 0x63, 0x6f, 0x72, 0x72, 0x65, 0x63, 0x74, 0x69, 0x6f, 0x6e, 0x3d, 0x22, 0x74, 0x22];
    proof {
        assert(v@ =~= core_correction_lower());
    }
    v
}

/// The bytes of `nlcc=.true.`.
pub open spec fn nlcc_true() -> Seq<u8> {
    seq![0x6eu8, 0x6c, 0x63, 0x63, 0x3d, 0x2e, 0x74, 0x72, 0x75, 0x65, 0x2e]
}

fn nlcc_true_bytes() -> (v: Vec<u8>)
    ensures
        v@ == nlcc_true(),
{
    let v: Vec<u8> = vec![0x6eu8, 0x6c, 0x63, 0x63, 0x3d, 0x2e, 0x74, 0x72, 0x75, 0x65, 0x2e];
    proof {
        assert(v@ =~= nlcc_true());
    }
    v
}

/// The bytes of `<UPF`.
pub open spec fn upf_open() -> Seq<u8> {
    seq![0x3cu8, 0x55, 0x50, 0x46]
}

fn upf_open_bytes() -> (v: Vec<u8>)
    ensures
        v@ == upf_open(),
{
    let v: Vec<u8> = vec![0x3cu8, 0x55, 0x50, 0x46];
    proof {
        assert(v@ =~= upf_open());
    }
    v
}

/// The bytes of `<PP_HEADER`.
pub open spec fn pp_header_open() -> Seq<u8> {
    seq![0x3cu8, 0x50, 0x50, 0x5f, 0x48, 0x45, 0x41, 0x44, 0x45, 0x52]
}

fn pp_header_open_bytes() -> (v: Vec<u8>)
    ensures
        v@ == pp_header_open(),
{
    let v: Vec<u8> = vec![0x3cu8, 0x50, 0x50, 0x5f, 0x48, 0x45, 0x41, 0x44, 0x45, 0x52];
    proof {
        assert(v@ =~= pp_header_open());
    }
    v
}

/// An optional span read as integers.
pub open spec fn opt_span(r: Option<(usize, usize)>) -> Option<(int, int)> {
    match r {
        Some(p) => Some((p.0 as int, p.1 as int)),
        None => None,
    }
}

/// The text that opens the value of attribute `name`: `name="`.
pub open spec fn attr_pattern(name: Seq<u8>) -> Seq<u8> {
    name + seq![0x3du8, 0x22]
}

/// `<TAG`: the start of an opening tag.
pub open spec fn open_tag(tag: Seq<u8>) -> Seq<u8> {
    seq![0x3cu8] + tag
}

/// `</TAG>`: a closing tag.
pub open spec fn close_tag(tag: Seq<u8>) -> Seq<u8> {
    seq![0x3cu8, 0x2f] + tag + seq![0x3eu8]
}

/// `PP_BETA.i`: the tag of the `i`-th projector.
pub open spec fn beta_tag(i: nat) -> Seq<u8> {
    pp_beta_prefix() + decimal(i)
}

// ---------------------------------------------------------------------------
// Attributes
// ---------------------------------------------------------------------------

/// The value of the first attribute `name` in `s[from..to]`: the text
/// after the first `name="` up to the next `"` (both inside the range).
pub open spec fn attr_span(s: Seq<u8>, name: Seq<u8>, from: int, to: int) -> Option<(int, int)> {
    match find_pos(s, attr_pattern(name), from, to) {
        None => None,
        Some(k) => {
            let start = k + name.len() + 2;
            match byte_pos(s, 0x22, start, to) {
                None => None,
                Some(e) => Some((start, e)),
            }
        },
    }
}

fn attr_in(s: &[u8], name: &[u8], from: usize, to: usize) -> (r: Option<(usize, usize)>)
    requires
        from <= to <= s.len(),
    ensures
        opt_span(r) == attr_span(s@, name@, from as int, to as int),
        r matches Some(p) ==> from <= p.0 <= p.1 < to,
{
    let mut pat: Vec<u8> = Vec::new();
    push_all(&mut pat, name);
    pat.push(0x3d);
    pat.push(0x22);
    proof {
        assert(pat@ =~= attr_pattern(name@));
    }
    match find_in(s, pat.as_slice(), from, to) {
        None => None,
        Some(k) => {
            let start = k + pat.len();
            match find_byte(s, 0x22, start, to) {
                None => None,
                Some(e) => Some((start, e)),
            }
        },
    }
}

/// Span of the value of the first attribute `attr_name="..."` in `content`
/// (the text between the quotes), or `None` when the attribute or its
/// closing quote is missing.
pub fn extract_attr(content: &str, attr_name: &str) -> (r: Option<(usize, usize)>)
    ensures
        opt_span(r) == attr_span(
            content.spec_bytes(),
            attr_name.spec_bytes(),
            0,
            content.spec_bytes().len() as int,
        ),
{
    let s = content.as_bytes();
    attr_in(s, attr_name.as_bytes(), 0, s.len())
}

/// The `angular_momentum` attribute of the opening tag `<TAG ...>` (the
/// first `<TAG` in `s`, up to the next `>`), read as an `i32` after
/// trimming; `None` when anything is missing or not an integer.
pub open spec fn beta_angular_momentum(s: Seq<u8>, tag: Seq<u8>) -> Option<int> {
    match find_pos(s, open_tag(tag), 0, s.len() as int) {
        None => None,
        Some(ts) => match byte_pos(s, 0x3e, ts, s.len() as int) {
            None => None,
            Some(te) => match attr_span(s, angular_momentum_name(), ts, te) {
                None => None,
                Some(v) => {
                    let t = trim_span(s, v.0, v.1);
                    match signed_from_str(s, t.0, t.1, i32::MIN as int, i32::MAX as int) {
                        Ok(l) => Some(l),
                        Err(_) => None,
                    }
                },
            },
        },
    }
}

fn tag_opening(tag: &[u8]) -> (v: Vec<u8>)
    ensures
        v@ == open_tag(tag@),
{
    let mut v: Vec<u8> = Vec::new();
    v.push(0x3c);
    push_all(&mut v, tag);
    proof {
        assert(v@ =~= open_tag(tag@));
    }
    v
}

fn tag_closing(tag: &[u8]) -> (v: Vec<u8>)
    ensures
        v@ == close_tag(tag@),
{
    let mut v: Vec<u8> = Vec::new();
    v.push(0x3c);
    v.push(0x2f);
    push_all(&mut v, tag);
    v.push(0x3e);
    proof {
        assert(v@ =~= close_tag(tag@));
    }
    v
}

fn beta_am_in(s: &[u8], tag: &[u8]) -> (r: Option<i32>)
    ensures
        match r {
            Some(l) => beta_angular_momentum(s@, tag@) == Some(l as int),
            None => beta_angular_momentum(s@, tag@) is None,
        },
{
    let open = tag_opening(tag);
    let ts = match find_in(s, open.as_slice(), 0, s.len()) {
        None => return None,
        Some(k) => k,
    };
    let te = match find_byte(s, 0x3e, ts, s.len()) {
        None => return None,
        Some(k) => k,
    };
    let name = angular_momentum_name_bytes();
    let v = match attr_in(s, name.as_slice(), ts, te) {
        None => return None,
        Some(v) => v,
    };
    let t = trim(s, v.0, v.1);
    match parse_i32(s, t.0, t.1) {
        Ok(l) => Some(l),
        Err(_) => None,
    }
}

/// The angular momentum `l` of projector tag `tag` (the
/// `angular_momentum="l"` attribute of its opening tag), or `None`.
pub fn extract_beta_angular_momentum(content: &str, tag: &str) -> (r: Option<i32>)
    ensures
        match r {
            Some(l) => beta_angular_momentum(content.spec_bytes(), tag.spec_bytes()) == Some(l as int),
            None => beta_angular_momentum(content.spec_bytes(), tag.spec_bytes()) is None,
        },
{
    beta_am_in(content.as_bytes(), tag.as_bytes())
}

// ---------------------------------------------------------------------------
// Numeric blocks
// ---------------------------------------------------------------------------

/// Why a numeric block could not be read.
#[derive(Debug, Clone, Copy, PartialEq, Eq, Structural)]
pub enum BlockError {
    /// No `<TAG` in the file.
    MissingTag,
    /// No `>` after `<TAG`.
    MalformedTag,
    /// No `</TAG>` after the opening tag.
    MissingClosingTag,
    /// The first token of the block that is no floating-point literal.
    BadValue { start: usize, end: usize, kind: FloatError },
    /// The block holds `found` numbers where `expected` were wanted.
    WrongCount { expected: u128, found: usize },
}

/// Index of the first token that is no floating-point literal, from `i` on.
pub open spec fn first_bad_value(s: Seq<u8>, toks: Seq<(int, int)>, i: int) -> Option<int>
    decreases toks.len() - i,
{
    if i < 0 || i >= toks.len() {
        None
    } else if float_error(s, toks[i].0, toks[i].1) is Some {
        Some(i)
    } else {
        first_bad_value(s, toks, i + 1)
    }
}

/// The numbers between `<TAG ...>` and `</TAG>` as token spans: the block
/// opens at the first `<TAG`, its text starts after the next `>` and ends
/// at the next `</TAG>`; every whitespace-separated token must be a
/// floating-point literal, and there must be `expected` of them.
pub open spec fn data_block(s: Seq<u8>, tag: Seq<u8>, expected: int) -> Result<
    Seq<(int, int)>,
    BlockError,
> {
    match find_pos(s, open_tag(tag), 0, s.len() as int) {
        None => Err(BlockError::MissingTag),
        Some(tp) => match byte_pos(s, 0x3e, tp, s.len() as int) {
            None => Err(BlockError::MalformedTag),
            Some(gt) => match find_pos(s, close_tag(tag), gt + 1, s.len() as int) {
                None => Err(BlockError::MissingClosingTag),
                Some(de) => {
                    let toks = tokens(s, gt + 1, de);
                    match first_bad_value(s, toks, 0) {
                        Some(i) => Err(
                            BlockError::BadValue {
                                start: toks[i].0 as usize,
                                end: toks[i].1 as usize,
                                kind: float_error(s, toks[i].0, toks[i].1).unwrap(),
                            },
                        ),
                        None => if toks.len() != expected {
                            Err(
                                BlockError::WrongCount {
                                    expected: expected as u128,
                                    found: toks.len() as usize,
                                },
                            )
                        } else {
                            Ok(toks)
                        },
                    }
                },
            },
        },
    }
}

/// The result of [`data_block`] with its spans as `usize` pairs.
pub open spec fn block_matches(
    r: Result<Vec<(usize, usize)>, BlockError>,
    spec: Result<Seq<(int, int)>, BlockError>,
) -> bool {
    match r {
        Ok(v) => spec == Ok::<Seq<(int, int)>, BlockError>(spans_int(v@)),
        Err(e) => spec == Err::<Seq<(int, int)>, BlockError>(e),
    }
}

fn first_bad_token(s: &[u8], toks: &Vec<(usize, usize)>) -> (r: Option<usize>)
    requires
        forall|k: int| 0 <= k < toks.len() ==> #[trigger] toks[k].0 <= toks[k].1 <= s.len(),
    ensures
        opt_int(r) == first_bad_value(s@, spans_int(toks@), 0),
        r matches Some(i) ==> i < toks.len(),
{
    let ghost t = spans_int(toks@);
    let mut i: usize = 0;
    while i < toks.len()
        invariant
            i <= toks.len(),
            t == spans_int(toks@),
            forall|k: int| 0 <= k < toks.len() ==> #[trigger] toks[k].0 <= toks[k].1 <= s.len(),
            first_bad_value(s@, t, 0) == first_bad_value(s@, t, i as int),
        decreases toks.len() - i,
    {
        let (a, b) = toks[i];
        if check_float(s, a, b).is_some() {
            return Some(i);
        }
        i = i + 1;
    }
    None
}

proof fn lemma_first_bad_value(s: Seq<u8>, toks: Seq<(int, int)>, j: int, i: int)
    requires
        0 <= j,
        first_bad_value(s, toks, j) == Some(i),
    ensures
        j <= i < toks.len(),
        float_error(s, toks[i].0, toks[i].1) is Some,
    decreases toks.len() - j,
{
    if j < toks.len() && float_error(s, toks[j].0, toks[j].1) is None {
        lemma_first_bad_value(s, toks, j + 1, i);
    }
}

fn block_in(s: &[u8], tag: &[u8], expected: u128) -> (r: Result<Vec<(usize, usize)>, BlockError>)
    ensures
        block_matches(r, data_block(s@, tag@, expected as int)),
{
    let open = tag_opening(tag);
    let close = tag_closing(tag);
    let n = s.len();
    let tp = match find_in(s, open.as_slice(), 0, n) {
        None => return Err(BlockError::MissingTag),
        Some(k) => k,
    };
    let gt = match find_byte(s, 0x3e, tp, n) {
        None => return Err(BlockError::MalformedTag),
        Some(k) => k,
    };
    let de = match find_in(s, close.as_slice(), gt + 1, n) {
        None => return Err(BlockError::MissingClosingTag),
        Some(k) => k,
    };
    let toks = split_whitespace(s, gt + 1, de);
    proof {
        assert(spans_int(toks@) =~= tokens(s@, gt + 1, de as int));
        lemma_tokens_within(s@, gt + 1, de as int);
        assert forall|k: int| 0 <= k < toks.len() implies #[trigger] toks[k].0 <= toks[k].1 <= s.len() by {
            assert(spans_int(toks@)[k] == tokens(s@, gt + 1, de as int)[k]);
        }
    }
    match first_bad_token(s, &toks) {
        Some(i) => {
            proof {
                lemma_first_bad_value(s@, spans_int(toks@), 0, i as int);
            }
            let (a, b) = toks[i];
            let kind = match check_float(s, a, b) {
                Some(k) => k,
                None => FloatError::Invalid,
            };
            Err(BlockError::BadValue { start: a, end: b, kind })
        },
        None => {
            if toks.len() as u128 != expected {
                Err(BlockError::WrongCount { expected, found: toks.len() })
            } else {
                Ok(toks)
            }
        },
    }
}

/// The spans of the numbers in the block `<TAG ...> ... </TAG>`, which must
/// hold `expected_size` floating-point literals.
pub fn extract_data_block(content: &str, tag: &str, expected_size: usize) -> (r: Result<
    Vec<(usize, usize)>,
    BlockError,
>)
    ensures
        block_matches(r, data_block(content.spec_bytes(), tag.spec_bytes(), expected_size as int)),
{
    block_in(content.as_bytes(), tag.as_bytes(), expected_size as u128)
}

// ---------------------------------------------------------------------------
// The whole file
// ---------------------------------------------------------------------------

/// Header attributes of a UPF file.
#[derive(Debug, Clone, Copy, PartialEq, Eq, Structural)]
pub enum UpfAttribute {
    Element,
    ZValence,
    LMax,
    NumberOfProj,
    MeshSize,
}

/// Numeric blocks of a UPF file.
#[derive(Debug, Clone, Copy, PartialEq, Eq, Structural)]
pub enum UpfBlock {
    R,
    Rab,
    Local,
    /// `PP_BETA.i`, numbered from 1.
    Beta(usize),
    Dij,
}

/// Why a UPF file could not be read.
#[derive(Debug, Clone, Copy, PartialEq, Eq, Structural)]
pub enum UpfError {
    /// A header attribute is missing.
    MissingAttribute(UpfAttribute),
    /// `z_valence` is no floating-point literal.
    ZValence(FloatError),
    /// `l_max` is no `i32`.
    LMax(IntError),
    /// `number_of_proj` is no `usize`.
    NumberOfProj(IntError),
    /// `mesh_size` is no `usize`.
    MeshSize(IntError),
    /// `PP_BETA.i` has no readable `angular_momentum`.
    MissingAngularMomentum(usize),
    /// A numeric block could not be read.
    Block(UpfBlock, BlockError),
}

/// One projector: its angular momentum and the spans of its values.
pub struct UpfBeta {
    pub l: i32,
    pub values: Vec<(usize, usize)>,
}

/// Where everything of a UPF file stands. Spans index the file's bytes;
/// each span of a number is a floating-point literal.
pub struct UpfLayout {
    /// The element symbol, trimmed.
    pub element: (usize, usize),
    /// The valence charge, trimmed.
    pub z_valence: (usize, usize),
    pub l_max: i32,
    pub n_proj: usize,
    pub mesh_size: usize,
    /// Radial grid `PP_R` (Bohr), `mesh_size` values.
    pub r: Vec<(usize, usize)>,
    /// Integration weights `PP_RAB` (Bohr), `mesh_size` values.
    pub rab: Vec<(usize, usize)>,
    /// Local potential `PP_LOCAL` (Ry), `mesh_size` values.
    pub local: Vec<(usize, usize)>,
    /// Projectors `PP_BETA.1` .. `PP_BETA.n_proj`, `mesh_size` values each.
    pub betas: Vec<UpfBeta>,
    /// `PP_DIJ` (Ry), `n_proj * n_proj` values.
    pub dij: Vec<(usize, usize)>,
    /// `PP_RHOATOM`, when that block reads as `mesh_size` values.
    pub rho_atom: Option<Vec<(usize, usize)>>,
    /// The header declares a nonlinear core correction.
    pub has_nlcc: bool,
    /// `PP_NLCC`, when `has_nlcc` and that block reads as `mesh_size` values.
    pub core_charge: Option<Vec<(usize, usize)>>,
}

/// A [`UpfLayout`] with its spans read as integers.
pub struct UpfParsed {
    pub element: (int, int),
    pub z_valence: (int, int),
    pub l_max: int,
    pub n_proj: int,
    pub mesh_size: int,
    pub r: Seq<(int, int)>,
    pub rab: Seq<(int, int)>,
    pub local: Seq<(int, int)>,
    pub betas: Seq<(int, Seq<(int, int)>)>,
    pub dij: Seq<(int, int)>,
    pub rho_atom: Option<Seq<(int, int)>>,
    pub has_nlcc: bool,
    pub core_charge: Option<Seq<(int, int)>>,
}

pub open spec fn opt_spans(v: Option<Vec<(usize, usize)>>) -> Option<Seq<(int, int)>> {
    match v {
        Some(v) => Some(spans_int(v@)),
        None => None,
    }
}

pub open spec fn betas_int(b: Seq<UpfBeta>) -> Seq<(int, Seq<(int, int)>)> {
    b.map_values(|p: UpfBeta| (p.l as int, spans_int(p.values@)))
}

impl View for UpfLayout {
    type V = UpfParsed;

    open spec fn view(&self) -> UpfParsed {
        UpfParsed {
            element: (self.element.0 as int, self.element.1 as int),
            z_valence: (self.z_valence.0 as int, self.z_valence.1 as int),
            l_max: self.l_max as int,
            n_proj: self.n_proj as int,
            mesh_size: self.mesh_size as int,
            r: spans_int(self.r@),
            rab: spans_int(self.rab@),
            local: spans_int(self.local@),
            betas: betas_int(self.betas@),
            dij: spans_int(self.dij@),
            rho_atom: opt_spans(self.rho_atom),
            has_nlcc: self.has_nlcc,
            core_charge: opt_spans(self.core_charge),
        }
    }
}

/// The projectors `PP_BETA.i` .. `PP_BETA.n_proj`: each needs its angular
/// momentum, then its block of `mesh` values; the first failure decides.
pub open spec fn betas_from(s: Seq<u8>, n_proj: int, mesh: int, i: int) -> Result<
    Seq<(int, Seq<(int, int)>)>,
    UpfError,
>
    decreases n_proj - i + 1,
{
    if i < 1 || i > n_proj {
        Ok(Seq::empty())
    } else {
        let tag = beta_tag(i as nat);
        match beta_angular_momentum(s, tag) {
            None => Err(UpfError::MissingAngularMomentum(i as usize)),
            Some(l) => match data_block(s, tag, mesh) {
                Err(e) => Err(UpfError::Block(UpfBlock::Beta(i as usize), e)),
                Ok(v) => match betas_from(s, n_proj, mesh, i + 1) {
                    Err(e) => Err(e),
                    Ok(rest) => Ok(seq![(l, v)] + rest),
                },
            },
        }
    }
}

/// What reading the UPF text `s` gives: the header attributes in order
/// (`element`, `z_valence`, `l_max`, `number_of_proj`, `mesh_size`), then
/// the blocks `PP_R`, `PP_RAB`, `PP_LOCAL`, the projectors and `PP_DIJ`;
/// the first failure is the error. `PP_RHOATOM` and `PP_NLCC` are optional.
pub open spec fn upf_outcome(s: Seq<u8>) -> Result<UpfParsed, UpfError> {
    let n = s.len() as int;
    match attr_span(s, element_name(), 0, n) {
        None => Err(UpfError::MissingAttribute(UpfAttribute::Element)),
        Some(ev) => match attr_span(s, z_valence_name(), 0, n) {
            None => Err(UpfError::MissingAttribute(UpfAttribute::ZValence)),
            Some(zv) => {
                let z = trim_span(s, zv.0, zv.1);
                match float_error(s, z.0, z.1) {
                    Some(fe) => Err(UpfError::ZValence(fe)),
                    None => match attr_span(s, l_max_name(), 0, n) {
                        None => Err(UpfError::MissingAttribute(UpfAttribute::LMax)),
                        Some(lv) => {
                            let lt = trim_span(s, lv.0, lv.1);
                            match signed_from_str(s, lt.0, lt.1, i32::MIN as int, i32::MAX as int) {
                                Err(ie) => Err(UpfError::LMax(ie)),
                                Ok(l_max) => upf_after_l_max(s, trim_span(s, ev.0, ev.1), z, l_max),
                            }
                        },
                    },
                }
            },
        },
    }
}

/// The value of header attribute `name`, trimmed of surrounding
/// whitespace and read as a `usize` (`None` when the attribute is absent).
pub open spec fn header_usize(s: Seq<u8>, name: Seq<u8>) -> Option<Result<int, IntError>> {
    match attr_span(s, name, 0, s.len() as int) {
        None => None,
        Some(v) => {
            let t = trim_span(s, v.0, v.1);
            Some(unsigned_from_str(s, t.0, t.1, usize::MAX as int))
        },
    }
}

/// The value of header attribute `name`, trimmed of surrounding
/// whitespace and read as an `i32` (`None` when the attribute is absent).
pub open spec fn header_i32(s: Seq<u8>, name: Seq<u8>) -> Option<Result<int, IntError>> {
    match attr_span(s, name, 0, s.len() as int) {
        None => None,
        Some(v) => {
            let t = trim_span(s, v.0, v.1);
            Some(signed_from_str(s, t.0, t.1, i32::MIN as int, i32::MAX as int))
        },
    }
}

/// The value of header attribute `name` with surrounding whitespace
/// trimmed (`None` when the attribute is absent).
pub open spec fn header_text(s: Seq<u8>, name: Seq<u8>) -> Option<(int, int)> {
    match attr_span(s, name, 0, s.len() as int) {
        None => None,
        Some(v) => Some(trim_span(s, v.0, v.1)),
    }
}

/// The header attributes are read with their surrounding
/// whitespace trimmed (headers pad them, as in `mesh_size="   602"`): a file
/// that reads has `l_max`, `n_proj` and `mesh_size` equal to the trimmed
/// values of `l_max`, `number_of_proj` and `mesh_size`, and a file is refused
/// for one of these attributes only when its trimmed value is no number of
/// that type, with the error that reading it gives. Padding around a
/// number therefore never decides the outcome. The element and the valence
/// charge are likewise the trimmed attribute texts.
pub proof fn lemma_upf_header_numbers_trimmed(s: Seq<u8>)
    ensures
        upf_outcome(s) matches Ok(p) ==> {
            &&& header_text(s, element_name()) == Some(p.element)
            &&& header_text(s, z_valence_name()) == Some(p.z_valence)
            &&& header_i32(s, l_max_name()) == Some(Ok::<int, IntError>(p.l_max))
            &&& header_usize(s, number_of_proj_name()) == Some(Ok::<int, IntError>(p.n_proj))
            &&& header_usize(s, mesh_size_name()) == Some(Ok::<int, IntError>(p.mesh_size))
        },
        upf_outcome(s) matches Err(UpfError::LMax(e)) ==> header_i32(s, l_max_name()) == Some(
            Err::<int, IntError>(e),
        ),
        upf_outcome(s) matches Err(UpfError::NumberOfProj(e)) ==> header_usize(
            s,
            number_of_proj_name(),
        ) == Some(Err::<int, IntError>(e)),
        upf_outcome(s) matches Err(UpfError::MeshSize(e)) ==> header_usize(s, mesh_size_name())
            == Some(Err::<int, IntError>(e)),
{
    let n = s.len() as int;
    match attr_span(s, element_name(), 0, n) {
        None => {},
        Some(ev) => match attr_span(s, z_valence_name(), 0, n) {
            None => {},
            Some(zv) => {
                let z = trim_span(s, zv.0, zv.1);
                match attr_span(s, l_max_name(), 0, n) {
                    None => {},
                    Some(lv) => {
                        let lt = trim_span(s, lv.0, lv.1);
                        match signed_from_str(s, lt.0, lt.1, i32::MIN as int, i32::MAX as int) {
                            Err(_) => {},
                            Ok(l_max) => {
                                lemma_upf_after_l_max_trimmed(s, trim_span(s, ev.0, ev.1), z, l_max);
                            },
                        }
                    },
                }
            },
        },
    }
}

proof fn lemma_upf_after_l_max_trimmed(s: Seq<u8>, element: (int, int), z: (int, int), l_max: int)
    ensures
        upf_after_l_max(s, element, z, l_max) matches Ok(p) ==> {
            &&& p.element == element
            &&& p.z_valence == z
            &&& p.l_max == l_max
            &&& header_usize(s, number_of_proj_name()) == Some(Ok::<int, IntError>(p.n_proj))
            &&& header_usize(s, mesh_size_name()) == Some(Ok::<int, IntError>(p.mesh_size))
        },
        upf_after_l_max(s, element, z, l_max) matches Err(UpfError::NumberOfProj(e)) ==> header_usize(
            s,
            number_of_proj_name(),
        ) == Some(Err::<int, IntError>(e)),
        upf_after_l_max(s, element, z, l_max) matches Err(UpfError::MeshSize(e)) ==> header_usize(
            s,
            mesh_size_name(),
        ) == Some(Err::<int, IntError>(e)),
        !(upf_after_l_max(s, element, z, l_max) matches Err(UpfError::LMax(_))),
{
    let n = s.len() as int;
    match attr_span(s, number_of_proj_name(), 0, n) {
        None => {},
        Some(pv) => {
            let pt = trim_span(s, pv.0, pv.1);
            match unsigned_from_str(s, pt.0, pt.1, usize::MAX as int) {
                Err(_) => {},
                Ok(n_proj) => match attr_span(s, mesh_size_name(), 0, n) {
                    None => {},
                    Some(mv) => {
                        let mt = trim_span(s, mv.0, mv.1);
                        match unsigned_from_str(s, mt.0, mt.1, usize::MAX as int) {
                            Err(_) => {},
                            Ok(mesh) => lemma_upf_blocks_header(s, element, z, l_max, n_proj, mesh),
                        }
                    },
                },
            }
        },
    }
}

proof fn lemma_upf_blocks_header(
    s: Seq<u8>,
    element: (int, int),
    z: (int, int),
    l_max: int,
    n_proj: int,
    mesh: int,
)
    ensures
        upf_blocks(s, element, z, l_max, n_proj, mesh) matches Ok(p) ==> p.element == element
            && p.z_valence == z && p.l_max == l_max && p.n_proj == n_proj && p.mesh_size == mesh,
        !(upf_blocks(s, element, z, l_max, n_proj, mesh) matches Err(
            UpfError::LMax(_) | UpfError::NumberOfProj(_) | UpfError::MeshSize(_),
        )),
{
    lemma_betas_errors(s, n_proj, mesh, 1);
}

proof fn lemma_betas_errors(s: Seq<u8>, n_proj: int, mesh: int, i: int)
    ensures
        !(betas_from(s, n_proj, mesh, i) matches Err(
            UpfError::LMax(_) | UpfError::NumberOfProj(_) | UpfError::MeshSize(_),
        )),
    decreases n_proj - i + 1,
{
    if 1 <= i <= n_proj {
        lemma_betas_errors(s, n_proj, mesh, i + 1);
    }
}

/// [`upf_outcome`] from `number_of_proj` on.
pub open spec fn upf_after_l_max(s: Seq<u8>, element: (int, int), z: (int, int), l_max: int) -> Result<
    UpfParsed,
    UpfError,
> {
    let n = s.len() as int;
    match attr_span(s, number_of_proj_name(), 0, n) {
        None => Err(UpfError::MissingAttribute(UpfAttribute::NumberOfProj)),
        Some(pv) => {
            let pt = trim_span(s, pv.0, pv.1);
            match unsigned_from_str(s, pt.0, pt.1, usize::MAX as int) {
                Err(ie) => Err(UpfError::NumberOfProj(ie)),
                Ok(n_proj) => match attr_span(s, mesh_size_name(), 0, n) {
                    None => Err(UpfError::MissingAttribute(UpfAttribute::MeshSize)),
                    Some(mv) => {
                        let mt = trim_span(s, mv.0, mv.1);
                        match unsigned_from_str(s, mt.0, mt.1, usize::MAX as int) {
                            Err(ie) => Err(UpfError::MeshSize(ie)),
                            Ok(mesh) => upf_blocks(s, element, z, l_max, n_proj, mesh),
                        }
                    },
                },
            }
        },
    }
}

/// [`upf_outcome`] from the numeric blocks on.
pub open spec fn upf_blocks(
    s: Seq<u8>,
    element: (int, int),
    z: (int, int),
    l_max: int,
    n_proj: int,
    mesh: int,
) -> Result<UpfParsed, UpfError> {
    match data_block(s, pp_r_tag(), mesh) {
        Err(e) => Err(UpfError::Block(UpfBlock::R, e)),
        Ok(r) => match data_block(s, pp_rab_tag(), mesh) {
            Err(e) => Err(UpfError::Block(UpfBlock::Rab, e)),
            Ok(rab) => match data_block(s, pp_local_tag(), mesh) {
                Err(e) => Err(UpfError::Block(UpfBlock::Local, e)),
                Ok(local) => match betas_from(s, n_proj, mesh, 1) {
                    Err(e) => Err(e),
                    Ok(betas) => match data_block(s, pp_dij_tag(), n_proj * n_proj) {
                        Err(e) => Err(UpfError::Block(UpfBlock::Dij, e)),
                        Ok(dij) => {
                            let has_nlcc = contains(s, core_correction_upper()) || contains(
                                s,
                                core_correction_lower(),
                            ) || contains(s, nlcc_true());
                            Ok(
                                UpfParsed {
                                    element,
                                    z_valence: z,
                                    l_max,
                                    n_proj,
                                    mesh_size: mesh,
                                    r,
                                    rab,
                                    local,
                                    betas,
                                    dij,
                                    rho_atom: match data_block(s, pp_rhoatom_tag(), mesh) {
                                        Ok(v) => Some(v),
                                        Err(_) => None,
                                    },
                                    has_nlcc,
                                    core_charge: if has_nlcc {
                                        match data_block(s, pp_nlcc_tag(), mesh) {
                                            Ok(v) => Some(v),
                                            Err(_) => None,
                                        }
                                    } else {
                                        None
                                    },
                                },
                            )
                        },
                    },
                },
            },
        },
    }
}

fn contains_bytes(s: &[u8], pat: &[u8]) -> (r: bool)
    ensures
        r == contains(s@, pat@),
{
    find_in(s, pat, 0, s.len()).is_some()
}

fn optional_block(s: &[u8], tag: &[u8], expected: u128) -> (r: Option<Vec<(usize, usize)>>)
    ensures
        opt_spans(r) == match data_block(s@, tag@, expected as int) {
            Ok(v) => Some(v),
            Err(_) => None::<Seq<(int, int)>>,
        },
{
    match block_in(s, tag, expected) {
        Ok(v) => Some(v),
        Err(_) => None,
    }
}

fn betas_in(s: &[u8], n_proj: usize, mesh: usize) -> (r: Result<Vec<UpfBeta>, UpfError>)
    ensures
        match r {
            Ok(b) => betas_from(s@, n_proj as int, mesh as int, 1) == Ok::<
                Seq<(int, Seq<(int, int)>)>,
                UpfError,
            >(betas_int(b@)),
            Err(e) => betas_from(s@, n_proj as int, mesh as int, 1) == Err::<
                Seq<(int, Seq<(int, int)>)>,
                UpfError,
            >(e),
        },
{
    let mut out: Vec<UpfBeta> = Vec::new();
    if n_proj == 0 {
        proof {
            assert(betas_int(out@) =~= Seq::<(int, Seq<(int, int)>)>::empty());
        }
        return Ok(out);
    }
    let mut i: usize = 1;
    loop
        invariant
            1 <= i <= n_proj,
            betas_from(s@, n_proj as int, mesh as int, 1) == match betas_from(
                s@,
                n_proj as int,
                mesh as int,
                i as int,
            ) {
                Ok(rest) => Ok(betas_int(out@) + rest),
                Err(e) => Err::<Seq<(int, Seq<(int, int)>)>, UpfError>(e),
            },
        decreases n_proj - i,
    {
        let mut tag = pp_beta_prefix_bytes();
        push_decimal(&mut tag, i);
        proof {
            assert(tag@ =~= beta_tag(i as nat));
        }
        let l = match beta_am_in(s, tag.as_slice()) {
            None => return Err(UpfError::MissingAngularMomentum(i)),
            Some(l) => l,
        };
        let values = match block_in(s, tag.as_slice(), mesh as u128) {
            Err(e) => return Err(UpfError::Block(UpfBlock::Beta(i), e)),
            Ok(v) => v,
        };
        let ghost old_out = out@;
        let ghost item = (l as int, spans_int(values@));
        out.push(UpfBeta { l, values });
        proof {
            assert(betas_int(out@) =~= betas_int(old_out).push(item));
            assert(betas_int(old_out) + (seq![item] + betas_from(s@, n_proj as int, mesh as int, i + 1).unwrap()) =~= betas_int(old_out).push(item) + betas_from(s@, n_proj as int, mesh as int, i + 1).unwrap());
        }
        if i == n_proj {
            proof {
                assert(betas_int(out@) + Seq::<(int, Seq<(int, int)>)>::empty() =~= betas_int(out@));
            }
            return Ok(out);
        }
        i = i + 1;
    }
}

/// Reads the layout of a UPF v2 file from its text content (see
/// [`upf_outcome`] for what is read, in which order, and which failure is
/// reported).
pub fn parse(content: &str) -> (r: Result<UpfLayout, UpfError>)
    ensures
        match r {
            Ok(l) => upf_outcome(content.spec_bytes()) == Ok::<UpfParsed, UpfError>(l@),
            Err(e) => upf_outcome(content.spec_bytes()) == Err::<UpfParsed, UpfError>(e),
        },
{
    let s = content.as_bytes();
    let n = s.len();
    let ev = match attr_in(s, element_name_bytes().as_slice(), 0, n) {
        None => return Err(UpfError::MissingAttribute(UpfAttribute::Element)),
        Some(v) => v,
    };
    let zv = match attr_in(s, z_valence_name_bytes().as_slice(), 0, n) {
        None => return Err(UpfError::MissingAttribute(UpfAttribute::ZValence)),
        Some(v) => v,
    };
    let z = trim(s, zv.0, zv.1);
    if let Some(fe) = check_float(s, z.0, z.1) {
        return Err(UpfError::ZValence(fe));
    }
    let lv = match attr_in(s, l_max_name_bytes().as_slice(), 0, n) {
        None => return Err(UpfError::MissingAttribute(UpfAttribute::LMax)),
        Some(v) => v,
    };
    let lt = trim(s, lv.0, lv.1);
    let l_max = match parse_i32(s, lt.0, lt.1) {
        Err(e) => return Err(UpfError::LMax(e)),
        Ok(v) => v,
    };
    let element = trim(s, ev.0, ev.1);
    let pv = match attr_in(s, number_of_proj_name_bytes().as_slice(), 0, n) {
        None => return Err(UpfError::MissingAttribute(UpfAttribute::NumberOfProj)),
        Some(v) => v,
    };
    let pt = trim(s, pv.0, pv.1);
    let n_proj = match parse_usize(s, pt.0, pt.1) {
        Err(e) => return Err(UpfError::NumberOfProj(e)),
        Ok(v) => v,
    };
    let mv = match attr_in(s, mesh_size_name_bytes().as_slice(), 0, n) {
        None => return Err(UpfError::MissingAttribute(UpfAttribute::MeshSize)),
        Some(v) => v,
    };
    let mt = trim(s, mv.0, mv.1);
    let mesh_size = match parse_usize(s, mt.0, mt.1) {
        Err(e) => return Err(UpfError::MeshSize(e)),
        Ok(v) => v,
    };
    let r = match block_in(s, pp_r_tag_bytes().as_slice(), mesh_size as u128) {
        Err(e) => return Err(UpfError::Block(UpfBlock::R, e)),
        Ok(v) => v,
    };
    let rab = match block_in(s, pp_rab_tag_bytes().as_slice(), mesh_size as u128) {
        Err(e) => return Err(UpfError::Block(UpfBlock::Rab, e)),
        Ok(v) => v,
    };
    let local = match block_in(s, pp_local_tag_bytes().as_slice(), mesh_size as u128) {
        Err(e) => return Err(UpfError::Block(UpfBlock::Local, e)),
        Ok(v) => v,
    };
    let betas = match betas_in(s, n_proj, mesh_size) {
        Err(e) => return Err(e),
        Ok(v) => v,
    };
    let np: u128 = n_proj as u128;
    proof {
        assert(np * np <= 0xffff_ffff_ffff_ffffu128 * 0xffff_ffff_ffff_ffffu128) by (nonlinear_arith)
            requires
                np <= 0xffff_ffff_ffff_ffffu128,
        ;
    }
    let dij_count: u128 = np * np;
    let dij = match block_in(s, pp_dij_tag_bytes().as_slice(), dij_count) {
        Err(e) => return Err(UpfError::Block(UpfBlock::Dij, e)),
        Ok(v) => v,
    };
    let rho_atom = optional_block(s, pp_rhoatom_tag_bytes().as_slice(), mesh_size as u128);
    let has_nlcc = contains_bytes(s, core_correction_upper_bytes().as_slice()) || contains_bytes(
        s,
        core_correction_lower_bytes().as_slice(),
    ) || contains_bytes(s, nlcc_true_bytes().as_slice());
    let core_charge = if has_nlcc {
        optional_block(s, pp_nlcc_tag_bytes().as_slice(), mesh_size as u128)
    } else {
        None
    };
    let layout = UpfLayout {
        element,
        z_valence: z,
        l_max,
        n_proj,
        mesh_size,
        r,
        rab,
        local,
        betas,
        dij,
        rho_atom,
        has_nlcc,
        core_charge,
    };
    Ok(layout)
}

/// The text looks like a UPF file: it contains `<UPF` or `<PP_HEADER`.
pub open spec fn is_upf(s: Seq<u8>) -> bool {
    contains(s, upf_open()) || contains(s, pp_header_open())
}

/// Whether `content` is in the UPF format, the only one read from files.
pub fn is_upf_format(content: &str) -> (r: bool)
    ensures
        r == is_upf(content.spec_bytes()),
{
    let s = content.as_bytes();
    contains_bytes(s, upf_open_bytes().as_slice()) || contains_bytes(s, pp_header_open_bytes().as_slice())
}

proof fn lemma_data_block_count(s: Seq<u8>, tag: Seq<u8>, expected: int)
    requires
        data_block(s, tag, expected) is Ok,
    ensures
        match data_block(s, tag, expected) {
            Ok(v) => v.len() == expected,
            Err(_) => true,
        },
{
}

proof fn lemma_betas_sizes(s: Seq<u8>, n_proj: int, mesh: int, i: int)
    requires
        1 <= i,
        betas_from(s, n_proj, mesh, i) is Ok,
    ensures
        match betas_from(s, n_proj, mesh, i) {
            Ok(b) => b.len() == (if i > n_proj {
                0
            } else {
                n_proj - i + 1
            }) && forall|k: int| 0 <= k < b.len() ==> (#[trigger] b[k]).1.len() == mesh,
            Err(_) => true,
        },
    decreases n_proj - i + 1,
{
    if i <= n_proj {
        let tag = beta_tag(i as nat);
        lemma_betas_sizes(s, n_proj, mesh, i + 1);
        match beta_angular_momentum(s, tag) {
            Some(l) => match data_block(s, tag, mesh) {
                Ok(v) => match betas_from(s, n_proj, mesh, i + 1) {
                    Ok(rest) => {
                        let b = seq![(l, v)] + rest;
                        assert forall|k: int| 0 <= k < b.len() implies (#[trigger] b[k]).1.len() == mesh by {
                            if k > 0 {
                                assert(b[k] == rest[k - 1]);
                            }
                        }
                    },
                    Err(_) => {},
                },
                Err(_) => {},
            },
            None => {},
        }
    }
}

/// Every block of a UPF file that reads has the size the header announces:
/// `mesh_size` values on the radial grid, its weights, the local potential,
/// each of the `number_of_proj` projectors and the optional densities, and
/// `number_of_proj²` values of `D_ij`.
pub proof fn lemma_upf_block_sizes(s: Seq<u8>)
    requires
        upf_outcome(s) is Ok,
    ensures
        match upf_outcome(s) {
            Ok(p) => {
                &&& p.r.len() == p.mesh_size
                &&& p.rab.len() == p.mesh_size
                &&& p.local.len() == p.mesh_size
                &&& p.betas.len() == p.n_proj
                &&& forall|k: int| 0 <= k < p.betas.len() ==> (#[trigger] p.betas[k]).1.len() == p.mesh_size
                &&& p.dij.len() == p.n_proj * p.n_proj
                &&& p.rho_atom matches Some(v) ==> v.len() == p.mesh_size
                &&& p.core_charge matches Some(v) ==> v.len() == p.mesh_size
            },
            Err(_) => true,
        },
{
    let n = s.len() as int;
    let ev = attr_span(s, element_name(), 0, n).unwrap();
    let zv = attr_span(s, z_valence_name(), 0, n).unwrap();
    let z = trim_span(s, zv.0, zv.1);
    let lv = attr_span(s, l_max_name(), 0, n).unwrap();
    let lt = trim_span(s, lv.0, lv.1);
    let l_max = signed_from_str(s, lt.0, lt.1, i32::MIN as int, i32::MAX as int)->Ok_0;
    let pv = attr_span(s, number_of_proj_name(), 0, n).unwrap();
    let pt = trim_span(s, pv.0, pv.1);
    let n_proj = unsigned_from_str(s, pt.0, pt.1, usize::MAX as int)->Ok_0;
    let mv = attr_span(s, mesh_size_name(), 0, n).unwrap();
    let mt = trim_span(s, mv.0, mv.1);
    let mesh = unsigned_from_str(s, mt.0, mt.1, usize::MAX as int)->Ok_0;
    assert(upf_outcome(s) == upf_blocks(s, trim_span(s, ev.0, ev.1), z, l_max, n_proj, mesh));
    lemma_data_block_count(s, pp_r_tag(), mesh);
    lemma_data_block_count(s, pp_rab_tag(), mesh);
    lemma_data_block_count(s, pp_local_tag(), mesh);
    lemma_data_block_count(s, pp_dij_tag(), n_proj * n_proj);
    lemma_betas_sizes(s, n_proj, mesh, 1);
    if data_block(s, pp_rhoatom_tag(), mesh) is Ok {
        lemma_data_block_count(s, pp_rhoatom_tag(), mesh);
    }
    if data_block(s, pp_nlcc_tag(), mesh) is Ok {
        lemma_data_block_count(s, pp_nlcc_tag(), mesh);
    }
    assert(n_proj >= 0) by {
        crate::text::lemma_unsigned_nonnegative(s, pt.0, pt.1, usize::MAX as int);
    }
}

/// Every span of `t` is a floating-point literal of `s`.
pub open spec fn all_literals(s: Seq<u8>, t: Seq<(int, int)>) -> bool {
    forall|k: int| 0 <= k < t.len() ==> float_error(s, (#[trigger] t[k]).0, t[k].1) is None
}

proof fn lemma_no_bad_value(s: Seq<u8>, toks: Seq<(int, int)>, i: int)
    requires
        0 <= i,
        first_bad_value(s, toks, i) is None,
    ensures
        forall|k: int| i <= k < toks.len() ==> float_error(s, (#[trigger] toks[k]).0, toks[k].1) is None,
    decreases toks.len() - i,
{
    if i < toks.len() {
        lemma_no_bad_value(s, toks, i + 1);
    }
}

proof fn lemma_block_literals(s: Seq<u8>, tag: Seq<u8>, expected: int)
    requires
        data_block(s, tag, expected) is Ok,
    ensures
        all_literals(s, data_block(s, tag, expected)->Ok_0),
{
    let n = s.len() as int;
    let tp = find_pos(s, open_tag(tag), 0, n).unwrap();
    let gt = byte_pos(s, 0x3e, tp, n).unwrap();
    let de = find_pos(s, close_tag(tag), gt + 1, n).unwrap();
    lemma_no_bad_value(s, tokens(s, gt + 1, de), 0);
}

proof fn lemma_betas_literals(s: Seq<u8>, n_proj: int, mesh: int, i: int)
    requires
        1 <= i,
        betas_from(s, n_proj, mesh, i) is Ok,
    ensures
        forall|k: int|
            0 <= k < betas_from(s, n_proj, mesh, i)->Ok_0.len() ==> all_literals(
                s,
                (#[trigger] betas_from(s, n_proj, mesh, i)->Ok_0[k]).1,
            ),
    decreases n_proj - i + 1,
{
    if i <= n_proj {
        let tag = beta_tag(i as nat);
        lemma_betas_literals(s, n_proj, mesh, i + 1);
        let l = beta_angular_momentum(s, tag).unwrap();
        lemma_block_literals(s, tag, mesh);
        let v = data_block(s, tag, mesh)->Ok_0;
        let rest = betas_from(s, n_proj, mesh, i + 1)->Ok_0;
        let b = seq![(l, v)] + rest;
        assert(betas_from(s, n_proj, mesh, i)->Ok_0 == b);
        assert forall|k: int| 0 <= k < b.len() implies all_literals(s, (#[trigger] b[k]).1) by {
            if k > 0 {
                assert(b[k] == rest[k - 1]);
            }
        }
    }
}

/// Every span of a number in a UPF layout that reads is a floating-point
/// literal, so converting it to a float cannot fail.
pub proof fn lemma_upf_numbers_are_literals(s: Seq<u8>)
    requires
        upf_outcome(s) is Ok,
    ensures
        match upf_outcome(s) {
            Ok(p) => {
                &&& float_error(s, p.z_valence.0, p.z_valence.1) is None
                &&& all_literals(s, p.r)
                &&& all_literals(s, p.rab)
                &&& all_literals(s, p.local)
                &&& forall|k: int| 0 <= k < p.betas.len() ==> all_literals(s, (#[trigger] p.betas[k]).1)
                &&& all_literals(s, p.dij)
                &&& p.rho_atom matches Some(v) ==> all_literals(s, v)
                &&& p.core_charge matches Some(v) ==> all_literals(s, v)
            },
            Err(_) => true,
        },
{
    let n = s.len() as int;
    let ev = attr_span(s, element_name(), 0, n).unwrap();
    let zv = attr_span(s, z_valence_name(), 0, n).unwrap();
    let z = trim_span(s, zv.0, zv.1);
    let lv = attr_span(s, l_max_name(), 0, n).unwrap();
    let lt = trim_span(s, lv.0, lv.1);
    let l_max = signed_from_str(s, lt.0, lt.1, i32::MIN as int, i32::MAX as int)->Ok_0;
    let pv = attr_span(s, number_of_proj_name(), 0, n).unwrap();
    let pt = trim_span(s, pv.0, pv.1);
    let n_proj = unsigned_from_str(s, pt.0, pt.1, usize::MAX as int)->Ok_0;
    let mv = attr_span(s, mesh_size_name(), 0, n).unwrap();
    let mt = trim_span(s, mv.0, mv.1);
    let mesh = unsigned_from_str(s, mt.0, mt.1, usize::MAX as int)->Ok_0;
    assert(upf_outcome(s) == upf_blocks(s, trim_span(s, ev.0, ev.1), z, l_max, n_proj, mesh));
    lemma_block_literals(s, pp_r_tag(), mesh);
    lemma_block_literals(s, pp_rab_tag(), mesh);
    lemma_block_literals(s, pp_local_tag(), mesh);
    lemma_block_literals(s, pp_dij_tag(), n_proj * n_proj);
    lemma_betas_literals(s, n_proj, mesh, 1);
    if data_block(s, pp_rhoatom_tag(), mesh) is Ok {
        lemma_block_literals(s, pp_rhoatom_tag(), mesh);
    }
    if data_block(s, pp_nlcc_tag(), mesh) is Ok {
        lemma_block_literals(s, pp_nlcc_tag(), mesh);
    }
}

} // verus!
