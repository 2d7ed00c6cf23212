//! Carrying a JPEG's EXIF segment over into a re-encoded JPEG.
use vstd::prelude::*;
use img_parts::ImageEXIF;

verus! {

#[verifier::external_type_specification]
#[verifier::external_body]
pub struct ExJpeg(img_parts::jpeg::Jpeg);

#[verifier::external_type_specification]
#[verifier::external_body]
pub struct ExJpegError(img_parts::Error);

/// A segment as marker byte, contents, and the entropy-coded data that
/// follows it (empty for all but a start-of-scan segment).
pub type Segment = (u8, Seq<u8>, Seq<u8>);

/// Largest contents a segment's 16-bit length field can describe.
pub open spec fn max_contents() -> int {
    65533
}

/// Whether every segment's contents fit its length field.
pub open spec fn lengths_fit(segs: Seq<Segment>) -> bool {
    forall|k: int| 0 <= k < segs.len() ==> (#[trigger] segs[k]).1.len() <= max_contents()
}

/// Whether every segment that carries entropy-coded data also has
/// contents (img_parts writes the data only after non-empty contents).
pub open spec fn scan_data_framed(segs: Seq<Segment>) -> bool {
    forall|k: int| 0 <= k < segs.len() ==> (#[trigger] segs[k]).2.len() > 0 ==> segs[k].1.len() > 0
}

/// Whether img_parts writes `segs` out in full: lengths fit their fields
/// and scan data is framed.
pub open spec fn writable(segs: Seq<Segment>) -> bool {
    lengths_fit(segs) && scan_data_framed(segs)
}

/// Markers whose length field counts its own two bytes: RST0-RST7,
/// APP0-APP15, SOF0-SOF15, SOS, COM, DQT and DRI.
pub open spec fn has_length(m: u8) -> bool {
    (0xD0 <= m <= 0xD7) || (0xE0 <= m <= 0xEF) || (0xC0 <= m <= 0xCF) || m == 0xDA || m == 0xFE
        || m == 0xDB || m == 0xDD
}

/// A segment written out: 0xFF, the marker, the big-endian length field,
/// the contents and the entropy-coded data.
pub open spec fn segment_encoding(s: Segment) -> Seq<u8> {
    let l = s.1.len() + if has_length(s.0) {
        2int
    } else {
        0int
    };
    seq![0xFFu8, s.0, (l / 256) as u8, (l % 256) as u8] + s.1 + s.2
}

pub open spec fn segments_encoding(segs: Seq<Segment>) -> Seq<u8>
    decreases segs.len(),
{
    if segs.len() == 0 {
        Seq::empty()
    } else {
        segments_encoding(segs.drop_last()) + segment_encoding(segs.last())
    }
}

/// A JPEG written out: the start-of-image marker, then each segment.
pub open spec fn jpeg_encoding(segs: Seq<Segment>) -> Seq<u8> {
    seq![0xFFu8, 0xD8u8] + segments_encoding(segs)
}

/// The segments that a parsed JPEG holds, in order.
pub uninterp spec fn jpeg_segments(j: img_parts::jpeg::Jpeg) -> Seq<Segment>;

/// The segments that `Jpeg::from_bytes` splits a byte stream into, or
/// `None` where it rejects the stream.
pub uninterp spec fn parsed_segments(b: Seq<u8>) -> Option<Seq<Segment>>;

/// `Exif\0\0`, which opens an EXIF segment's contents.
pub open spec fn exif_prefix() -> Seq<u8> {
    seq![0x45u8, 0x78u8, 0x69u8, 0x66u8, 0u8, 0u8]
}

/// An APP1 segment whose contents open with the EXIF prefix.
pub open spec fn is_exif_segment(s: Segment) -> bool {
    is_exif_parts(s.0, s.1)
}

pub open spec fn is_exif_parts(marker: u8, contents: Seq<u8>) -> bool {
    marker == 0xE1 && contents.len() >= 6 && contents.subrange(0, 6) == exif_prefix()
}

/// The EXIF payload of the first EXIF segment, if any.
pub open spec fn exif_in(segs: Seq<Segment>) -> Option<Seq<u8>>
    decreases segs.len(),
{
    if segs.len() == 0 {
        None
    } else if is_exif_segment(segs[0]) {
        Some(segs[0].1.subrange(6, segs[0].1.len() as int))
    } else {
        exif_in(segs.subrange(1, segs.len() as int))
    }
}

/// The segments that are not EXIF segments, in order.
pub open spec fn non_exif(segs: Seq<Segment>) -> Seq<Segment>
    decreases segs.len(),
{
    if segs.len() == 0 {
        Seq::empty()
    } else {
        let rest = non_exif(segs.drop_last());
        if is_exif_segment(segs.last()) {
            rest
        } else {
            rest.push(segs.last())
        }
    }
}

/// `segs` with its EXIF segments replaced by one that carries `e`, placed
/// fourth.
pub open spec fn with_exif(segs: Seq<Segment>, e: Seq<u8>) -> Seq<Segment> {
    non_exif(segs).insert(3, (0xE1u8, exif_prefix() + e, Seq::<u8>::empty()))
}

pub open spec fn bytes_view(v: Option<Vec<u8>>) -> Option<Seq<u8>> {
    match v {
        Some(b) => Some(b@),
        None => None,
    }
}

/// Relies on img_parts' `Jpeg::from_bytes`: splits a JPEG byte stream into
/// its segments, or fails on a malformed one; a function of the bytes alone.
/// Contents are read after a 16-bit length that counts itself, so none is
/// longer than 65533 bytes.
#[verifier::external_body]
fn parse_jpeg(bytes: Vec<u8>) -> (r: Result<img_parts::jpeg::Jpeg, img_parts::Error>)
    ensures
        match parsed_segments(bytes@) {
            Some(s) => r matches Ok(j) && jpeg_segments(j) == s,
            None => r is Err,
        },
        r matches Ok(j) ==> lengths_fit(jpeg_segments(j)),
{
    img_parts::jpeg::Jpeg::from_bytes(bytes.into())
}

/// Relies on img_parts' `Jpeg::segments`: the segment list's length.
#[verifier::external_body]
fn segment_count(j: &img_parts::jpeg::Jpeg) -> (r: usize)
    ensures
        r == jpeg_segments(*j).len(),
{
    j.segments().len()
}

/// Relies on img_parts' `JpegSegment::marker`, of segment `i`.
#[verifier::external_body]
fn segment_marker(j: &img_parts::jpeg::Jpeg, i: usize) -> (r: u8)
    requires
        i < jpeg_segments(*j).len(),
    ensures
        r == jpeg_segments(*j)[i as int].0,
{
    j.segments()[i].marker()
}

/// Relies on img_parts' `JpegSegment::contents`, of segment `i`.
#[verifier::external_body]
fn segment_contents(j: &img_parts::jpeg::Jpeg, i: usize) -> (r: Vec<u8>)
    requires
        i < jpeg_segments(*j).len(),
    ensures
        r@ == jpeg_segments(*j)[i as int].1,
{
    j.segments()[i].contents().to_vec()
}

/// Relies on img_parts' `JpegSegment::has_entropy`, of segment `i`.
#[verifier::external_body]
fn segment_has_entropy(j: &img_parts::jpeg::Jpeg, i: usize) -> (r: bool)
    requires
        i < jpeg_segments(*j).len(),
    ensures
        r == (jpeg_segments(*j)[i as int].2.len() > 0),
{
    j.segments()[i].has_entropy()
}

/// Relies on img_parts' `ImageEXIF::exif` for `Jpeg`: the payload after the
/// EXIF prefix of the first APP1 segment that opens with it.
#[verifier::external_body]
fn jpeg_exif(j: &img_parts::jpeg::Jpeg) -> (r: Option<Vec<u8>>)
    ensures
        bytes_view(r) == exif_in(jpeg_segments(*j)),
{
    j.exif().map(|b| b.to_vec())
}

/// Relies on img_parts' `ImageEXIF::set_exif` for `Jpeg`: drops every EXIF
/// segment, then inserts one carrying `exif` at index 3 (which panics with
/// fewer than three segments left).
#[verifier::external_body]
fn jpeg_set_exif(j: &mut img_parts::jpeg::Jpeg, exif: Vec<u8>)
    requires
        non_exif(jpeg_segments(*old(j))).len() >= 3,
    ensures
        jpeg_segments(*final(j)) == with_exif(jpeg_segments(*old(j)), exif@),
{
    j.set_exif(Some(exif.into()))
}

/// Relies on img_parts' `Jpeg::encoder` and `ImageEncoder::bytes`: the
/// start-of-image marker, then each segment's header, contents and entropy
/// data (a segment's length field is a `u16`, whose conversion panics on
/// longer contents; the entropy data of a segment with empty contents would
/// be skipped).
#[verifier::external_body]
fn jpeg_bytes(j: img_parts::jpeg::Jpeg) -> (r: Vec<u8>)
    requires
        writable(jpeg_segments(j)),
    ensures
        r@ == jpeg_encoding(jpeg_segments(j)),
{
    j.encoder().bytes().to_vec()
}

/// Why an EXIF segment could not be carried over.
#[derive(Clone, Copy, Debug, PartialEq, Eq, Structural)]
pub enum ExifError {
    /// The original is not a readable JPEG.
    UnreadableOriginal,
    /// The re-encoded output is not a readable JPEG.
    UnreadableOutput,
    /// The output has a segment with entropy-coded data but no contents,
    /// which img_parts cannot write back out in full.
    UnframedScanData,
    /// The output has fewer than three non-EXIF segments to place the EXIF
    /// segment after.
    TooFewSegments,
}

fn is_exif_bytes(marker: u8, contents: &Vec<u8>) -> (r: bool)
    ensures
        r == is_exif_parts(marker, contents@),
{
    if marker != 0xE1 || contents.len() < 6 {
        return false;
    }
    let ok = contents[0] == 0x45 && contents[1] == 0x78 && contents[2] == 0x69 && contents[3]
        == 0x66 && contents[4] == 0 && contents[5] == 0;
    assert(ok == (contents@.subrange(0, 6) =~= exif_prefix()));
    ok
}

/// Counts the segments of `j` that are not EXIF segments.
pub fn count_non_exif_segments(j: &img_parts::jpeg::Jpeg) -> (r: usize)
    ensures
        r == non_exif(jpeg_segments(*j)).len(),
{
    let ghost segs = jpeg_segments(*j);
    let n = segment_count(j);
    let mut count: usize = 0;
    let mut i: usize = 0;
    while i < n
        invariant
            segs == jpeg_segments(*j),
            n == segs.len(),
            i <= n,
            count == non_exif(segs.subrange(0, i as int)).len(),
            count <= i,
        decreases n - i,
    {
        let marker = segment_marker(j, i);
        let contents = segment_contents(j, i);
        assert(segs.subrange(0, i + 1).drop_last() =~= segs.subrange(0, i as int));
        if !is_exif_bytes(marker, &contents) {
            count = count + 1;
        }
        i = i + 1;
    }
    assert(segs.subrange(0, n as int) =~= segs);
    count
}

/// Whether each segment of `j` that carries entropy-coded data has contents.
pub fn has_framed_scan_data(j: &img_parts::jpeg::Jpeg) -> (r: bool)
    ensures
        r == scan_data_framed(jpeg_segments(*j)),
{
    let ghost segs = jpeg_segments(*j);
    let n = segment_count(j);
    let mut i: usize = 0;
    while i < n
        invariant
            segs == jpeg_segments(*j),
            n == segs.len(),
            i <= n,
            forall|k: int| 0 <= k < i ==> (#[trigger] segs[k]).2.len() > 0 ==> segs[k].1.len() > 0,
        decreases n - i,
    {
        if segment_has_entropy(j, i) && segment_contents(j, i).len() == 0 {
            return false;
        }
        i = i + 1;
    }
    true
}

/// Replaces the EXIF segments of `j` with one that carries `exif`, where
/// `j` has at least three other segments; else leaves `j` as it is.
pub fn attach_exif(j: &mut img_parts::jpeg::Jpeg, exif: Vec<u8>) -> (r: Result<(), ExifError>)
    ensures
        r is Ok <==> non_exif(jpeg_segments(*old(j))).len() >= 3,
        r is Ok ==> jpeg_segments(*final(j)) == with_exif(jpeg_segments(*old(j)), exif@),
        r is Ok ==> exif_in(jpeg_segments(*final(j))) == Some(exif@),
        r is Err ==> r == Err::<(), ExifError>(ExifError::TooFewSegments) && *final(j) == *old(j),
{
    if count_non_exif_segments(j) < 3 {
        return Err(ExifError::TooFewSegments);
    }
    let ghost e = exif@;
    proof {
        lemma_exif_round_trip(jpeg_segments(*j), e);
    }
    jpeg_set_exif(j, exif);
    Ok(())
}

/// What carrying the EXIF data of `original` into `output` owes: the
/// error, `None` where the original has no EXIF data, or the bytes of the
/// output with its EXIF segments replaced by the original's payload.
pub open spec fn reattach_outcome(original: Seq<u8>, output: Seq<u8>) -> Result<
    Option<Seq<u8>>,
    ExifError,
> {
    match parsed_segments(original) {
        None => Err(ExifError::UnreadableOriginal),
        Some(src) => match exif_in(src) {
            None => Ok(None),
            Some(e) => match parsed_segments(output) {
                None => Err(ExifError::UnreadableOutput),
                Some(dst) => if !scan_data_framed(dst) {
                    Err(ExifError::UnframedScanData)
                } else if non_exif(dst).len() >= 3 {
                    Ok(Some(jpeg_encoding(with_exif(dst, e))))
                } else {
                    Err(ExifError::TooFewSegments)
                },
            },
        },
    }
}

/// Carries the EXIF segment of the JPEG `original` into the freshly encoded
/// JPEG `output`. `Ok(None)` where the original has no EXIF data (the output
/// stands as it is), `Ok(Some(bytes))` with the output rewritten to carry it.
pub fn reattach_exif(original: Vec<u8>, output: Vec<u8>) -> (r: Result<Option<Vec<u8>>, ExifError>)
    ensures
        match reattach_outcome(original@, output@) {
            Err(e) => r == Err::<Option<Vec<u8>>, ExifError>(e),
            Ok(None) => r == Ok::<Option<Vec<u8>>, ExifError>(None),
            Ok(Some(b)) => r matches Ok(Some(v)) && v@ == b,
        },
{
    let src = match parse_jpeg(original) {
        Ok(j) => j,
        Err(_) => return Err(ExifError::UnreadableOriginal),
    };
    let exif = match jpeg_exif(&src) {
        Some(e) => e,
        None => return Ok(None),
    };
    proof {
        lemma_exif_in_bounded(jpeg_segments(src));
    }
    let mut dst = match parse_jpeg(output) {
        Ok(j) => j,
        Err(_) => return Err(ExifError::UnreadableOutput),
    };
    if !has_framed_scan_data(&dst) {
        return Err(ExifError::UnframedScanData);
    }
    let ghost before = jpeg_segments(dst);
    let ghost e = exif@;
    match attach_exif(&mut dst, exif) {
        Ok(()) => {
            proof {
                lemma_with_exif_fits(before, e);
            }
            Ok(Some(jpeg_bytes(dst)))
        },
        Err(e) => Err(e),
    }
}

proof fn lemma_exif_in_bounded(segs: Seq<Segment>)
    requires
        lengths_fit(segs),
    ensures
        exif_in(segs) matches Some(e) ==> e.len() <= max_contents() - 6,
    decreases segs.len(),
{
    if segs.len() > 0 {
        let t = segs.subrange(1, segs.len() as int);
        assert(segs[0].1.len() <= max_contents());
        assert forall|k: int| 0 <= k < t.len() implies (#[trigger] t[k]).1.len() <= max_contents() by {
            assert(t[k] == segs[k + 1]);
        }
        lemma_exif_in_bounded(t);
    }
}

proof fn lemma_non_exif_fits(segs: Seq<Segment>)
    requires
        writable(segs),
    ensures
        writable(non_exif(segs)),
    decreases segs.len(),
{
    if segs.len() > 0 {
        let d = segs.drop_last();
        assert forall|k: int| 0 <= k < d.len() implies (#[trigger] d[k]).1.len() <= max_contents()
            && (d[k].2.len() > 0 ==> d[k].1.len() > 0) by {
            assert(d[k] == segs[k]);
        }
        lemma_non_exif_fits(d);
        let rest = non_exif(d);
        let l = segs.last();
        assert(l == segs[segs.len() - 1]);
        assert(l.1.len() <= max_contents() && (l.2.len() > 0 ==> l.1.len() > 0));
        let ne = non_exif(segs);
        assert forall|k: int| 0 <= k < ne.len() implies (#[trigger] ne[k]).1.len() <= max_contents()
            && (ne[k].2.len() > 0 ==> ne[k].1.len() > 0) by {
            if k < rest.len() {
                assert(ne[k] == rest[k]);
            }
        }
    }
}

proof fn lemma_with_exif_fits(segs: Seq<Segment>, e: Seq<u8>)
    requires
        writable(segs),
        e.len() <= max_contents() - 6,
        non_exif(segs).len() >= 3,
    ensures
        writable(with_exif(segs, e)),
{
    lemma_non_exif_fits(segs);
    let ne = non_exif(segs);
    let w = with_exif(segs, e);
    assert forall|k: int| 0 <= k < w.len() implies (#[trigger] w[k]).1.len() <= max_contents()
        && (w[k].2.len() > 0 ==> w[k].1.len() > 0) by {
        if k < 3 {
            assert(w[k] == ne[k]);
        } else if k > 3 {
            assert(w[k] == ne[k - 1]);
        }
    }
}

proof fn lemma_non_exif_excludes(segs: Seq<Segment>)
    ensures
        forall|k: int| 0 <= k < non_exif(segs).len() ==> !is_exif_segment(#[trigger] non_exif(segs)[k]),
    decreases segs.len(),
{
    if segs.len() > 0 {
        let rest = non_exif(segs.drop_last());
        lemma_non_exif_excludes(segs.drop_last());
        if !is_exif_segment(segs.last()) {
            assert forall|k: int| 0 <= k < non_exif(segs).len() implies !is_exif_segment(
                #[trigger] non_exif(segs)[k],
            ) by {
                if k < rest.len() {
                    assert(non_exif(segs)[k] == rest[k]);
                }
            }
        }
    }
}

proof fn lemma_exif_in_first(s: Seq<Segment>, k: int)
    requires
        0 <= k < s.len(),
        forall|j: int| 0 <= j < k ==> !is_exif_segment(#[trigger] s[j]),
        is_exif_segment(s[k]),
    ensures
        exif_in(s) == Some(s[k].1.subrange(6, s[k].1.len() as int)),
    decreases k,
{
    if k > 0 {
        let t = s.subrange(1, s.len() as int);
        assert forall|j: int| 0 <= j < k - 1 implies !is_exif_segment(#[trigger] t[j]) by {
            assert(t[j] == s[j + 1]);
        }
        lemma_exif_in_first(t, k - 1);
        assert(!is_exif_segment(s[0]));
    }
}

/// Once a JPEG with at least three non-EXIF segments has been given the
/// EXIF payload `e`, its EXIF payload reads back as exactly `e`.
pub proof fn lemma_exif_round_trip(segs: Seq<Segment>, e: Seq<u8>)
    requires
        non_exif(segs).len() >= 3,
    ensures
        exif_in(with_exif(segs, e)) == Some(e),
{
    let w = with_exif(segs, e);
    let ne = non_exif(segs);
    lemma_non_exif_excludes(segs);
    let x = (0xE1u8, exif_prefix() + e, Seq::<u8>::empty());
    assert(x.1.subrange(0, 6) =~= exif_prefix());
    assert(w[3] == x);
    assert forall|j: int| 0 <= j < 3 implies !is_exif_segment(#[trigger] w[j]) by {
        assert(w[j] == ne[j]);
    }
    lemma_exif_in_first(w, 3);
    assert(x.1.subrange(6, x.1.len() as int) =~= e);
}

} // verus!
