//! Image output formats, content negotiation, and the conversion engine.

use image::GenericImageView;
use vstd::prelude::*;
use vstd::string::StrSliceExecFns;
use vstd::string::StringExecFns;
use crate::chars::{
    all_digits, digit_val, digits_val, find_in_range, first_sep, is_digit_char, range_eq_str,
    split_chars, split_range, str_to_chars, trim_chars, trim_range,
};

verus! {

/// Supported image output formats.  `Original` means "pass upstream bytes
/// through unmodified".
#[derive(Debug, Clone, Copy, PartialEq, Eq, Structural)]
pub enum OutputFormat {
    Avif,
    WebP,
    Jpeg,
    Png,
    Original,
}

/// The stable textual tag of a format, used in cache keys.
pub open spec fn spec_format_tag(f: OutputFormat) -> Seq<char> {
    match f {
        OutputFormat::Avif => "Avif"@,
        OutputFormat::WebP => "WebP"@,
        OutputFormat::Jpeg => "Jpeg"@,
        OutputFormat::Png => "Png"@,
        OutputFormat::Original => "Original"@,
    }
}

/// Distinct formats carry distinct tags, so responses produced for
/// different formats occupy different cache entries.
pub proof fn lemma_format_tag_injective(f1: OutputFormat, f2: OutputFormat)
    requires
        f1 != f2,
    ensures
        spec_format_tag(f1) != spec_format_tag(f2),
{
    reveal_strlit("Avif");
    reveal_strlit("WebP");
    reveal_strlit("Jpeg");
    reveal_strlit("Png");
    reveal_strlit("Original");
    assert("Avif"@[0] == 'A' && "WebP"@[0] == 'W' && "Jpeg"@[0] == 'J');
    assert("Avif"@.len() == 4 && "WebP"@.len() == 4 && "Jpeg"@.len() == 4 && "Png"@.len() == 3
        && "Original"@.len() == 8);
}

impl OutputFormat {
    /// Stable textual rendering of the format.
    pub fn tag(&self) -> (r: &'static str)
        ensures
            r@ == spec_format_tag(*self),
    {
        match self {
            OutputFormat::Avif => "Avif",
            OutputFormat::WebP => "WebP",
            OutputFormat::Jpeg => "Jpeg",
            OutputFormat::Png => "Png",
            OutputFormat::Original => "Original",
        }
    }
}

/// True iff no conversion is needed: the upstream format equals the
/// desired one, or the desired format is `Original`.
pub fn format_satisfies(upstream_format: OutputFormat, desired_format: OutputFormat) -> (r: bool)
    ensures
        r == (upstream_format == desired_format || desired_format == OutputFormat::Original),
{
    upstream_format == desired_format || desired_format == OutputFormat::Original
}

/// A content type names an image iff it starts with `"image/"`.
pub open spec fn spec_is_image_content_type(ct: Seq<char>) -> bool {
    ct.len() >= 6 && ct.take(6) == "image/"@
}

/// Check if a content type is an image type.
pub fn is_image_content_type(content_type: &str) -> (r: bool)
    ensures
        r == spec_is_image_content_type(content_type@),
{
    let chars = str_to_chars(content_type);
    if chars.len() < 6 {
        return false;
    }
    let r = range_eq_str(&chars, 0, 6, "image/");
    proof {
        assert(content_type@.subrange(0, 6) == content_type@.take(6));
    }
    r
}

/// The output format a content type names, if any.
pub open spec fn spec_format_from_content_type(ct: Seq<char>) -> Option<OutputFormat> {
    if ct == "image/avif"@ {
        Some(OutputFormat::Avif)
    } else if ct == "image/webp"@ {
        Some(OutputFormat::WebP)
    } else if ct == "image/jpeg"@ || ct == "image/jpg"@ {
        Some(OutputFormat::Jpeg)
    } else if ct == "image/png"@ {
        Some(OutputFormat::Png)
    } else {
        None
    }
}

/// Map a content-type string to an output format.
pub fn format_from_content_type(content_type: &str) -> (r: Option<OutputFormat>)
    ensures
        r == spec_format_from_content_type(content_type@),
{
    let chars = str_to_chars(content_type);
    let n = chars.len();
    proof {
        assert(content_type@.subrange(0, content_type@.len() as int) =~= content_type@);
    }
    if range_eq_str(&chars, 0, n, "image/avif") {
        Some(OutputFormat::Avif)
    } else if range_eq_str(&chars, 0, n, "image/webp") {
        Some(OutputFormat::WebP)
    } else if range_eq_str(&chars, 0, n, "image/jpeg") || range_eq_str(&chars, 0, n, "image/jpg") {
        Some(OutputFormat::Jpeg)
    } else if range_eq_str(&chars, 0, n, "image/png") {
        Some(OutputFormat::Png)
    } else {
        None
    }
}

/// Quality integer parts are capped; ordering among capped values
/// collapses, which only matters for absurdly large quality values.
pub open spec fn clamp_q(v: int) -> int {
    if v > 2000000 {
        2000000
    } else {
        v
    }
}

/// Value of the first three fraction digits, in thousandths.
pub open spec fn frac_milli(fp: Seq<char>) -> int {
    (if fp.len() >= 1 { digit_val(fp[0]) * 100 } else { 0 })
        + (if fp.len() >= 2 { digit_val(fp[1]) * 10 } else { 0 })
        + (if fp.len() >= 3 { digit_val(fp[2]) } else { 0 })
}

/// Parses a decimal number (optional sign, digits, optional dot and
/// fraction digits) into thousandths.  Fraction digits beyond the third
/// are checked but do not contribute; large magnitudes are capped.
/// Anything else — empty input, stray characters, exponents — is rejected.
pub open spec fn parse_q_milli(s: Seq<char>) -> Option<int> {
    let sign: int = if s.len() > 0 && s[0] == '-' {
        -1
    } else {
        1
    };
    let r = if s.len() > 0 && (s[0] == '-' || s[0] == '+') {
        s.drop_first()
    } else {
        s
    };
    let dot = first_sep(r, '.');
    let ip = r.take(dot as int);
    let fp = if dot < r.len() {
        r.skip(dot as int + 1)
    } else {
        Seq::empty()
    };
    if ip.len() + fp.len() == 0 {
        None
    } else if !(all_digits(ip) && all_digits(fp)) {
        None
    } else {
        Some(sign * (clamp_q(digits_val(ip)) * 1000 + frac_milli(fp)))
    }
}

proof fn lemma_digits_val_nonneg(s: Seq<char>)
    requires
        all_digits(s),
    ensures
        digits_val(s) >= 0,
    decreases s.len(),
{
    if s.len() > 0 {
        assert(forall|j: int| 0 <= j < s.drop_last().len() ==> s.drop_last()[j] == s[j]);
        lemma_digits_val_nonneg(s.drop_last());
        assert(is_digit_char(s.last()));
    }
}

/// Executable twin of [`is_digit_char`].
fn is_digit(c: char) -> (r: bool)
    ensures
        r == is_digit_char(c),
{
    let u = c as u32;
    48 <= u && u <= 57
}

/// Parses a run of digits, capped as [`clamp_q`] caps it; reports a
/// non-digit instead of a value.
fn parse_int_clamped(v: &Vec<char>, start: usize, end: usize) -> (r: Option<u64>)
    requires
        start <= end <= v@.len(),
    ensures
        match r {
            Some(x) => all_digits(v@.subrange(start as int, end as int)) && x as int == clamp_q(
                digits_val(v@.subrange(start as int, end as int)),
            ) && x <= 2000000,
            None => !all_digits(v@.subrange(start as int, end as int)),
        },
{
    let ghost sub = v@.subrange(start as int, end as int);
    let mut acc: u64 = 0;
    let mut j: usize = start;
    while j < end
        invariant
            start <= j <= end <= v@.len(),
            sub == v@.subrange(start as int, end as int),
            all_digits(sub.take(j - start)),
            acc as int == clamp_q(digits_val(sub.take(j - start))),
            acc <= 2000000,
        decreases end - j,
    {
        let c = v[j];
        proof {
            assert(sub[j - start] == v@[j as int]);
        }
        if !is_digit(c) {
            proof {
                assert(!is_digit_char(sub[j - start]));
            }
            return None;
        }
        let d = (c as u32 - 48) as u64;
        let next: u64 = acc * 10 + d;
        let ghost pre = sub.take(j - start);
        proof {
            assert(pre.push(sub[j - start]) =~= sub.take(j - start + 1));
            assert(sub.take(j - start + 1).drop_last() =~= pre);
            lemma_digits_val_nonneg(pre);
            let a = digits_val(pre);
            assert(digits_val(sub.take(j - start + 1)) == a * 10 + digit_val(sub[j - start]));
            if a > 2000000 {
                assert(a * 10 + digit_val(sub[j - start]) > 2000000);
            }
        }
        acc = if next > 2000000 {
            2000000
        } else {
            next
        };
        j += 1;
    }
    proof {
        assert(sub.take(end - start) =~= sub);
    }
    Some(acc)
}

/// Value of the first three fraction digits, in thousandths.
fn frac_milli_range(v: &Vec<char>, start: usize, end: usize) -> (r: u64)
    requires
        start <= end <= v@.len(),
        all_digits(v@.subrange(start as int, end as int)),
    ensures
        r as int == frac_milli(v@.subrange(start as int, end as int)),
        r <= 999,
{
    let ghost sub = v@.subrange(start as int, end as int);
    let n = end - start;
    let mut r: u64 = 0;
    if n >= 1 {
        proof {
            assert(sub[0] == v@[start as int]);
            assert(is_digit_char(sub[0]));
        }
        r = r + ((v[start] as u32 - 48) as u64) * 100;
    }
    if n >= 2 {
        proof {
            assert(sub[1] == v@[start + 1]);
            assert(is_digit_char(sub[1]));
        }
        r = r + ((v[start + 1] as u32 - 48) as u64) * 10;
    }
    if n >= 3 {
        proof {
            assert(sub[2] == v@[start + 2]);
            assert(is_digit_char(sub[2]));
        }
        r = r + (v[start + 2] as u32 - 48) as u64;
    }
    r
}

/// Parses the range `[start, end)` of `v` as a decimal quality value in
/// thousandths.
#[verifier::rlimit(60)]
#[verifier::spinoff_prover]
fn parse_q_range(v: &Vec<char>, start: usize, end: usize) -> (r: Option<i64>)
    requires
        start <= end <= v@.len(),
    ensures
        match r {
            Some(q) => parse_q_milli(v@.subrange(start as int, end as int)) == Some(q as int),
            None => parse_q_milli(v@.subrange(start as int, end as int)) is None,
        },
{
    let ghost sub = v@.subrange(start as int, end as int);
    let mut i: usize = start;
    let mut neg = false;
    if i < end && (v[i] == '-' || v[i] == '+') {
        proof {
            assert(sub[0] == v@[start as int]);
        }
        neg = v[i] == '-';
        i += 1;
    }
    let ghost r0 = v@.subrange(i as int, end as int);
    proof {
        if i > start {
            assert(sub.drop_first() =~= r0);
        } else {
            assert(sub =~= r0);
        }
    }
    let dot = find_in_range(v, i, end, '.');
    let ghost ip = r0.take(first_sep(r0, '.') as int);
    proof {
        assert(v@.subrange(i as int, dot as int) =~= ip);
    }
    let fp_len: usize = if dot < end {
        end - dot - 1
    } else {
        0
    };
    proof {
        if dot < end {
            assert(v@.subrange(dot + 1 as int, end as int) =~= r0.skip(
                first_sep(r0, '.') as int + 1,
            ));
        }
    }
    if (dot - i) + fp_len == 0 {
        return None;
    }
    let a = match parse_int_clamped(v, i, dot) {
        Some(a) => a,
        None => {
            return None;
        },
    };
    let mut f: u64 = 0;
    if dot < end {
        match parse_int_clamped(v, dot + 1, end) {
            Some(_) => {},
            None => {
                return None;
            },
        }
        f = frac_milli_range(v, dot + 1, end);
    }
    let val: u64 = a * 1000 + f;
    proof {
        let sign: int = if sub.len() > 0 && sub[0] == '-' {
            -1
        } else {
            1
        };
        let dt = first_sep(r0, '.');
        assert(dt == dot - i);
        assert(ip == r0.take(dt as int));
        let fps: Seq<char> = if dt < r0.len() {
            r0.skip(dt as int + 1)
        } else {
            Seq::empty()
        };
        if dot < end {
            assert(fps == r0.skip(dt as int + 1));
            assert(v@.subrange(dot + 1 as int, end as int) =~= fps);
        } else {
            assert(fps =~= Seq::<char>::empty());
            assert(frac_milli(fps) == 0);
        }
        assert(a as int == clamp_q(digits_val(ip)));
        assert(f as int == frac_milli(fps));
        assert(ip.len() + fps.len() > 0);
        assert(parse_q_milli(sub) == Some(sign * (clamp_q(digits_val(ip)) * 1000 + frac_milli(fps))));
        assert(val as int == clamp_q(digits_val(ip)) * 1000 + frac_milli(fps));
    }
    if neg {
        Some(-(val as i64))
    } else {
        Some(val as i64)
    }
}

/// The output format an Accept-header media type names, honouring the
/// AVIF/WebP enable flags.  `image/*` and `*/*` ask for the original
/// bytes; anything else is dropped.
pub open spec fn media_format(media: Seq<char>, avif: bool, webp: bool) -> Option<OutputFormat> {
    if media == "image/avif"@ {
        if avif {
            Some(OutputFormat::Avif)
        } else {
            None
        }
    } else if media == "image/webp"@ {
        if webp {
            Some(OutputFormat::WebP)
        } else {
            None
        }
    } else if media == "image/jpeg"@ {
        Some(OutputFormat::Jpeg)
    } else if media == "image/png"@ {
        Some(OutputFormat::Png)
    } else if media == "image/*"@ || media == "*/*"@ {
        Some(OutputFormat::Original)
    } else {
        None
    }
}

/// The quality value a parameter segment carries: its trimmed text must
/// start with `q=` and the rest must parse as a decimal number.
pub open spec fn seg_q(seg: Seq<char>) -> Option<int> {
    let t = trim_chars(seg);
    if t.len() >= 2 && t[0] == 'q' && t[1] == '=' {
        parse_q_milli(t.skip(2))
    } else {
        None
    }
}

/// Quality of an entry given its parameter segments: the first segment
/// that parses wins; without one the quality defaults to one (a thousand
/// thousandths).
pub open spec fn first_q(segs: Seq<Seq<char>>) -> int
    decreases segs.len(),
{
    if segs.len() == 0 {
        1000
    } else {
        match seg_q(segs[0]) {
            Some(q) => q,
            None => first_q(segs.drop_first()),
        }
    }
}

/// The candidate an Accept-header entry contributes: its media type
/// mapped to a format, paired with its quality in thousandths.
pub open spec fn entry_candidate(entry: Seq<char>, avif: bool, webp: bool) -> Option<
    (OutputFormat, int),
> {
    let segs = split_chars(trim_chars(entry), ';');
    let media = trim_chars(segs[0]);
    match media_format(media, avif, webp) {
        Some(f) => Some((f, first_q(segs.drop_first()))),
        None => None,
    }
}

/// All candidates of an Accept header, in header order.
pub open spec fn spec_candidates(accept: Seq<char>, avif: bool, webp: bool) -> Seq<
    (OutputFormat, int),
> {
    split_chars(accept, ',').filter_map(|e: Seq<char>| entry_candidate(e, avif, webp))
}

/// The candidate at `i` beats every other: nothing has a higher quality,
/// and everything before it has a strictly lower one.
pub open spec fn best_at(cands: Seq<(OutputFormat, int)>, i: int, r: OutputFormat) -> bool {
    &&& 0 <= i < cands.len()
    &&& cands[i].0 == r
    &&& forall|j: int| 0 <= j < cands.len() ==> (#[trigger] cands[j]).1 <= cands[i].1
    &&& forall|j: int| 0 <= j < i ==> (#[trigger] cands[j]).1 < cands[i].1
}

/// `r` is the negotiated format for `accept`: the first candidate with
/// the highest quality, or `Original` when no candidate matches.
pub open spec fn is_negotiated(accept: Seq<char>, avif: bool, webp: bool, r: OutputFormat) -> bool {
    let cands = spec_candidates(accept, avif, webp);
    if cands.len() == 0 {
        r == OutputFormat::Original
    } else {
        exists|i: int| best_at(cands, i, r)
    }
}

/// The negotiation rule picks exactly one format: a candidate that beats
/// every other — highest quality, earliest on ties — is unique, so two
/// results that both satisfy [`is_negotiated`] for the same header and
/// flags are the same format.
pub proof fn lemma_negotiated_unique(
    accept: Seq<char>,
    avif: bool,
    webp: bool,
    r1: OutputFormat,
    r2: OutputFormat,
)
    requires
        is_negotiated(accept, avif, webp, r1),
        is_negotiated(accept, avif, webp, r2),
    ensures
        r1 == r2,
{
    let cands = spec_candidates(accept, avif, webp);
    if cands.len() > 0 {
        let i1 = choose|i: int| best_at(cands, i, r1);
        let i2 = choose|i: int| best_at(cands, i, r2);
        assert(cands[i1].1 <= cands[i2].1);
        assert(cands[i2].1 <= cands[i1].1);
        if i1 < i2 {
            assert(cands[i1].1 < cands[i2].1);
            assert(false);
        }
        if i2 < i1 {
            assert(cands[i2].1 < cands[i1].1);
            assert(false);
        }
    }
}

/// Maps the media type in `[start, end)` to a format.
fn media_format_range(v: &Vec<char>, start: usize, end: usize, avif: bool, webp: bool) -> (r:
    Option<OutputFormat>)
    requires
        start <= end <= v@.len(),
    ensures
        r == media_format(v@.subrange(start as int, end as int), avif, webp),
{
    if range_eq_str(v, start, end, "image/avif") {
        if avif {
            Some(OutputFormat::Avif)
        } else {
            None
        }
    } else if range_eq_str(v, start, end, "image/webp") {
        if webp {
            Some(OutputFormat::WebP)
        } else {
            None
        }
    } else if range_eq_str(v, start, end, "image/jpeg") {
        Some(OutputFormat::Jpeg)
    } else if range_eq_str(v, start, end, "image/png") {
        Some(OutputFormat::Png)
    } else if range_eq_str(v, start, end, "image/*") || range_eq_str(v, start, end, "*/*") {
        Some(OutputFormat::Original)
    } else {
        None
    }
}

/// Quality of an entry, scanning its parameter segments (all segments of
/// `segs` after the first) for the first `q=` value that parses.
fn entry_q(v: &Vec<char>, segs: &Vec<(usize, usize)>) -> (r: i64)
    requires
        segs@.len() >= 1,
        forall|k: int| 0 <= k < segs@.len() ==> (#[trigger] segs@[k]).0 <= segs@[k].1 <= v@.len(),
    ensures
        r as int == first_q(
            segs@.map_values(|p: (usize, usize)| v@.subrange(p.0 as int, p.1 as int)).drop_first(),
        ),
{
    let ghost sv = segs@.map_values(|p: (usize, usize)| v@.subrange(p.0 as int, p.1 as int));
    let mut k: usize = 1;
    while k < segs.len()
        invariant
            1 <= k <= segs@.len(),
            sv == segs@.map_values(|p: (usize, usize)| v@.subrange(p.0 as int, p.1 as int)),
            forall|j: int| 0 <= j < segs@.len() ==> (#[trigger] segs@[j]).0 <= segs@[j].1
                <= v@.len(),
            first_q(sv.drop_first()) == first_q(sv.skip(k as int)),
        decreases segs@.len() - k,
    {
        let (ss, se) = (segs[k].0, segs[k].1);
        let ghost seg = sv[k as int];
        proof {
            assert(seg == v@.subrange(ss as int, se as int));
            assert(sv.skip(k as int)[0] == sv[k as int]);
            assert(sv.skip(k as int).drop_first() =~= sv.skip(k as int + 1));
        }
        let (qs, qe) = trim_range(v, ss, se);
        let ghost t = trim_chars(seg);
        proof {
            assert(t == v@.subrange(qs as int, qe as int));
        }
        if qe - qs >= 2 && v[qs] == 'q' && v[qs + 1] == '=' {
            proof {
                assert(t[0] == v@[qs as int]);
                assert(t[1] == v@[qs + 1]);
                assert(t.skip(2) =~= v@.subrange(qs + 2, qe as int));
            }
            match parse_q_range(v, qs + 2, qe) {
                Some(q) => {
                    proof {
                        assert(seg_q(seg) == Some(q as int));
                    }
                    return q;
                },
                None => {
                    proof {
                        assert(seg_q(seg) is None);
                    }
                },
            }
        } else {
            proof {
                if t.len() >= 2 {
                    assert(t[0] == v@[qs as int]);
                    assert(t[1] == v@[qs + 1]);
                }
                assert(seg_q(seg) is None);
            }
        }
        k += 1;
    }
    proof {
        assert(sv.skip(segs@.len() as int) =~= Seq::<Seq<char>>::empty());
    }
    1000
}

/// Parse an Accept header and return the preferred image output format.
///
/// Entries are split on commas; each entry's media type is its first
/// `;`-separated segment, and later segments may carry a `q=` quality.
/// The first candidate with the numerically highest quality wins; with no
/// usable candidate the result is `Original`.
#[verifier::rlimit(30)]
pub fn parse_accept_header(accept: &str, enable_avif: bool, enable_webp: bool) -> (r: OutputFormat)
    ensures
        is_negotiated(accept@, enable_avif, enable_webp, r),
{
    let chars = str_to_chars(accept);
    let n = chars.len();
    proof {
        assert(chars@.subrange(0, n as int) =~= accept@);
    }
    let entries = split_range(&chars, 0, n, ',');
    let ghost entseq = split_chars(accept@, ',');
    let ghost f = |e: Seq<char>| entry_candidate(e, enable_avif, enable_webp);
    let ghost rview = |p: (usize, usize)| chars@.subrange(p.0 as int, p.1 as int);
    let mut best: Option<(OutputFormat, i64)> = None;
    let ghost mut bi: int = 0;
    let mut i: usize = 0;
    proof {
        assert(entseq.take(0).filter_map(f) =~= Seq::<(OutputFormat, int)>::empty());
    }
    while i < entries.len()
        invariant
            i <= entries@.len(),
            n == chars@.len(),
            chars@ == accept@,
            entseq == split_chars(accept@, ','),
            f == (|e: Seq<char>| entry_candidate(e, enable_avif, enable_webp)),
            rview == (|p: (usize, usize)| chars@.subrange(p.0 as int, p.1 as int)),
            entries@.map_values(rview) == entseq,
            forall|k: int| 0 <= k < entries@.len() ==> (#[trigger] entries@[k]).0 <= entries@[k].1
                <= n,
            match best {
                None => entseq.take(i as int).filter_map(f).len() == 0,
                Some((bf, bq)) => {
                    let cs = entseq.take(i as int).filter_map(f);
                    &&& 0 <= bi < cs.len()
                    &&& cs[bi].0 == bf
                    &&& cs[bi].1 == bq as int
                    &&& forall|j: int| 0 <= j < cs.len() ==> (#[trigger] cs[j]).1 <= bq as int
                    &&& forall|j: int| 0 <= j < bi ==> (#[trigger] cs[j]).1 < bq as int
                },
            },
        decreases entries@.len() - i,
    {
        let (es, ee) = (entries[i].0, entries[i].1);
        let ghost e = entseq[i as int];
        proof {
            assert(entries@.map_values(rview)[i as int] == rview(entries@[i as int]));
            assert(e == chars@.subrange(es as int, ee as int));
        }
        let (ts, te) = trim_range(&chars, es, ee);
        let ghost trimmed = trim_chars(e);
        let segs = split_range(&chars, ts, te, ';');
        let ghost segsv = split_chars(trimmed, ';');
        proof {
            assert(segs@.map_values(rview) == segsv);
            assert(segsv.len() >= 1);
            assert(segs@.map_values(rview)[0] == rview(segs@[0]));
        }
        let (ms, me) = trim_range(&chars, segs[0].0, segs[0].1);
        proof {
            assert(trim_chars(segsv[0]) == chars@.subrange(ms as int, me as int));
        }
        let fmt_opt = media_format_range(&chars, ms, me, enable_avif, enable_webp);
        let ghost cs = entseq.take(i as int).filter_map(f);
        proof {
            entseq.lemma_filter_map_take_succ(f, i as int);
        }
        match fmt_opt {
            Some(fmt) => {
                let q = entry_q(&chars, &segs);
                proof {
                    assert(segs@.map_values(rview).drop_first() == segsv.drop_first());
                    assert(f(e) == Some((fmt, q as int)));
                    assert(entseq.take(i as int + 1).filter_map(f) =~= cs.push((fmt, q as int)));
                }
                match best {
                    None => {
                        best = Some((fmt, q));
                        proof {
                            bi = 0;
                        }
                    },
                    Some((bf, bq)) => {
                        if q > bq {
                            best = Some((fmt, q));
                            proof {
                                bi = cs.len() as int;
                            }
                        }
                    },
                }
            },
            None => {
                proof {
                    assert(f(e) is None);
                    assert(entseq.take(i as int + 1).filter_map(f) =~= cs);
                }
            },
        }
        i += 1;
    }
    proof {
        assert(entseq.take(entseq.len() as int) =~= entseq);
    }
    match best {
        None => OutputFormat::Original,
        Some((bf, _)) => {
            proof {
                assert(best_at(spec_candidates(accept@, enable_avif, enable_webp), bi, bf));
            }
            bf
        },
    }
}

/// Why a conversion failed: the input bytes were not a recognized image,
/// or the target codec rejected the pixel buffer.
#[derive(Debug, Clone, Copy, PartialEq, Eq, Structural)]
pub enum ConversionError {
    DecodeError,
    EncodeError,
}

#[verifier::external_type_specification]
#[verifier::external_body]
pub struct ExDynamicImage(image::DynamicImage);

/// Whether these bytes decode as a recognized image container; whether
/// they do depends on the bytes alone.
pub uninterp spec fn decode_ok(data: Seq<u8>) -> bool;

/// Relies on image::load_from_memory: sniffs the container format from
/// the bytes and decodes them into pixels.  Success is a function of the
/// bytes alone, named by [`decode_ok`]; failures come back as errors,
/// never panics.
#[verifier::external_body]
fn decode_image(data: &Vec<u8>) -> (r: Result<image::DynamicImage, ()>)
    ensures
        r is Ok <==> decode_ok(data@),
{
    match image::load_from_memory(data.as_slice()) {
        Ok(img) => Ok(img),
        Err(_) => Err(()),
    }
}

/// Relies on image::DynamicImage::dimensions: width and height in pixels.
#[verifier::external_body]
fn image_dimensions(img: &image::DynamicImage) -> (u32, u32) {
    img.dimensions()
}

/// Relies on image::DynamicImage::resize with the Lanczos3 filter.
#[verifier::external_body]
fn resize_image(img: &image::DynamicImage, width: u32, height: u32) -> image::DynamicImage {
    img.resize(width, height, image::imageops::FilterType::Lanczos3)
}

/// Relies on image::codecs::avif::AvifEncoder at the fastest speed.
/// The encoder clamps the quality only from above; the AV1 encoder
/// beneath it asserts a quality of at least one, hence the bound.
#[verifier::external_body]
fn encode_avif(img: &image::DynamicImage, quality: u8) -> Result<Vec<u8>, ()>
    requires
        quality >= 1,
{
    let mut buffer = Vec::new();
    let encoder = image::codecs::avif::AvifEncoder::new_with_speed_quality(
        &mut buffer,
        10,
        quality,
    );
    match img.write_with_encoder(encoder) {
        Ok(()) => Ok(buffer),
        Err(_) => Err(()),
    }
}

/// Relies on image::codecs::webp::WebPEncoder::new_lossless: WebP output
/// is always lossless, whatever quality is configured.
#[verifier::external_body]
fn encode_webp(img: &image::DynamicImage) -> Result<Vec<u8>, ()> {
    let mut buffer = Vec::new();
    let encoder = image::codecs::webp::WebPEncoder::new_lossless(&mut buffer);
    match img.write_with_encoder(encoder) {
        Ok(()) => Ok(buffer),
        Err(_) => Err(()),
    }
}

/// Relies on image::codecs::jpeg::JpegEncoder::new_with_quality; the
/// encoder clamps the quality into its accepted range.
#[verifier::external_body]
fn encode_jpeg(img: &image::DynamicImage, quality: u8) -> Result<Vec<u8>, ()> {
    let mut buffer = Vec::new();
    let encoder = image::codecs::jpeg::JpegEncoder::new_with_quality(&mut buffer, quality);
    match img.write_with_encoder(encoder) {
        Ok(()) => Ok(buffer),
        Err(_) => Err(()),
    }
}

/// Relies on image::codecs::png::PngEncoder: standard lossless encode.
#[verifier::external_body]
fn encode_png(img: &image::DynamicImage) -> Result<Vec<u8>, ()> {
    let mut buffer = Vec::new();
    let encoder = image::codecs::png::PngEncoder::new(&mut buffer);
    match img.write_with_encoder(encoder) {
        Ok(()) => Ok(buffer),
        Err(_) => Err(()),
    }
}

/// Byte-for-byte copy of a byte vector.
fn clone_bytes(data: &Vec<u8>) -> (r: Vec<u8>)
    ensures
        r@ == data@,
{
    let mut r: Vec<u8> = Vec::new();
    let mut i: usize = 0;
    while i < data.len()
        invariant
            i <= data@.len(),
            r@ == data@.take(i as int),
        decreases data@.len() - i,
    {
        r.push(data[i]);
        proof {
            assert(data@.take(i as int).push(data@[i as int]) =~= data@.take(i + 1 as int));
        }
        i += 1;
    }
    proof {
        assert(data@.take(data@.len() as int) =~= data@);
    }
    r
}

/// Dimensions after bounding an image by `maxd`: within bounds nothing
/// changes; otherwise the longer side becomes `maxd` and the shorter one
/// is scaled proportionally, truncated to whole pixels.
pub open spec fn spec_resize_dims(w: int, h: int, maxd: int) -> (int, int) {
    if w <= maxd && h <= maxd {
        (w, h)
    } else if w > h {
        (maxd, (h * maxd) / w)
    } else {
        ((w * maxd) / h, maxd)
    }
}

/// Target dimensions for an image that may exceed the configured bound.
pub fn resize_dimensions(width: u32, height: u32, max_dimension: u32) -> (r: (u32, u32))
    ensures
        r.0 as int == spec_resize_dims(width as int, height as int, max_dimension as int).0,
        r.1 as int == spec_resize_dims(width as int, height as int, max_dimension as int).1,
{
    if width <= max_dimension && height <= max_dimension {
        (width, height)
    } else if width > height {
        proof {
            assert(height as int * max_dimension as int <= 0xFFFFFFFE00000001) by (nonlinear_arith)
                requires
                    0 <= height as int <= 0xFFFFFFFF,
                    0 <= max_dimension as int <= 0xFFFFFFFF;
            assert((height as int * max_dimension as int) / (width as int) <= max_dimension as int)
                by (nonlinear_arith)
                requires
                    0 <= height as int <= width as int,
                    width as int > 0,
                    max_dimension as int >= 0;
        }
        let nh = ((height as u64 * max_dimension as u64) / width as u64) as u32;
        (max_dimension, nh)
    } else {
        proof {
            assert(width as int * max_dimension as int <= 0xFFFFFFFE00000001) by (nonlinear_arith)
                requires
                    0 <= width as int <= 0xFFFFFFFF,
                    0 <= max_dimension as int <= 0xFFFFFFFF;
            assert((width as int * max_dimension as int) / (height as int) <= max_dimension as int)
                by (nonlinear_arith)
                requires
                    0 <= width as int <= height as int,
                    height as int > 0,
                    max_dimension as int >= 0;
        }
        let nw = ((width as u64 * max_dimension as u64) / height as u64) as u32;
        (nw, max_dimension)
    }
}

/// Image converter for format transformations.
pub struct ImageConverter {
    pub quality: u8,
    pub max_dimension: u32,
    pub enable_avif: bool,
    pub enable_webp: bool,
}

/// What a successful conversion promises: the mime type matches the
/// target (falling back to JPEG where AVIF or WebP is disabled), and for
/// `Original` the input bytes come back unchanged.
pub open spec fn convert_ok(
    c: ImageConverter,
    target: OutputFormat,
    data: Seq<u8>,
    out_data: Seq<u8>,
    out_mime: Seq<char>,
) -> bool {
    match target {
        OutputFormat::Avif => if c.enable_avif {
            out_mime == "image/avif"@
        } else {
            out_mime == "image/jpeg"@
        },
        OutputFormat::WebP => if c.enable_webp {
            out_mime == "image/webp"@
        } else {
            out_mime == "image/jpeg"@
        },
        OutputFormat::Jpeg => out_mime == "image/jpeg"@,
        OutputFormat::Png => out_mime == "image/png"@,
        OutputFormat::Original => out_mime == "application/octet-stream"@ && out_data == data,
    }
}

impl ImageConverter {
    pub fn new(quality: u8, max_dimension: u32, enable_avif: bool, enable_webp: bool) -> (r: Self)
        requires
            1 <= quality <= 100,
        ensures
            r.quality == quality,
            r.max_dimension == max_dimension,
            r.enable_avif == enable_avif,
            r.enable_webp == enable_webp,
    {
        Self { quality, max_dimension, enable_avif, enable_webp }
    }

    /// Scales the image down when either dimension exceeds the bound.
    pub fn resize_if_needed(&self, img: image::DynamicImage) -> image::DynamicImage {
        let (width, height) = image_dimensions(&img);
        if width > self.max_dimension || height > self.max_dimension {
            let (nw, nh) = resize_dimensions(width, height, self.max_dimension);
            resize_image(&img, nw, nh)
        } else {
            img
        }
    }

    /// Convert image bytes to the requested format: decode, bound the
    /// dimensions, and re-encode.  A disabled AVIF or WebP target falls
    /// back to JPEG; `Original` returns the input unchanged.  Bytes that
    /// decode as no image fail with `DecodeError`, and only those; a
    /// codec that rejects the pixel buffer fails with `EncodeError`.
    pub fn convert(&self, data: &Vec<u8>, target_format: OutputFormat) -> (r: Result<
        (Vec<u8>, String),
        ConversionError,
    >)
        requires
            1 <= self.quality <= 100,
        ensures
            r matches Ok(p) ==> convert_ok(*self, target_format, data@, p.0@, p.1@),
            (r matches Err(e) && e == ConversionError::DecodeError) <==> !decode_ok(data@),
            decode_ok(data@) && target_format == OutputFormat::Original ==> r is Ok,
    {
        let img = match decode_image(data) {
            Ok(img) => img,
            Err(()) => {
                return Err(ConversionError::DecodeError);
            },
        };
        let img = self.resize_if_needed(img);
        match target_format {
            OutputFormat::Avif if self.enable_avif => {
                match encode_avif(&img, self.quality) {
                    Ok(converted) => Ok((converted, String::from_str("image/avif"))),
                    Err(()) => Err(ConversionError::EncodeError),
                }
            },
            OutputFormat::WebP if self.enable_webp => {
                match encode_webp(&img) {
                    Ok(converted) => Ok((converted, String::from_str("image/webp"))),
                    Err(()) => Err(ConversionError::EncodeError),
                }
            },
            OutputFormat::Png => {
                match encode_png(&img) {
                    Ok(converted) => Ok((converted, String::from_str("image/png"))),
                    Err(()) => Err(ConversionError::EncodeError),
                }
            },
            OutputFormat::Original => {
                Ok((clone_bytes(data), String::from_str("application/octet-stream")))
            },
            _ => {
                match encode_jpeg(&img, self.quality) {
                    Ok(converted) => Ok((converted, String::from_str("image/jpeg"))),
                    Err(()) => Err(ConversionError::EncodeError),
                }
            },
        }
    }
}

} // verus!
