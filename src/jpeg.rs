//! Lossy JPEG quality search: the candidate qualities around the requested
//! one, and the size/quality score that picks among their encodings.
use vstd::prelude::*;

verus! {

/// The requested quality clamped to `60..=95`.
pub open spec fn base_quality(q: u8) -> int {
    if q < 60 {
        60
    } else if q > 95 {
        95
    } else {
        q as int
    }
}

pub open spec fn if_in_range(q: int) -> Seq<int> {
    if 60 <= q <= 95 {
        seq![q]
    } else {
        Seq::empty()
    }
}

/// `b-10, b-5, b, b+5, b+10` for the base quality `b`, ascending, keeping
/// those inside `60..=95`.
pub open spec fn candidate_qualities(q: u8) -> Seq<int> {
    let b = base_quality(q);
    if_in_range(b - 10) + if_in_range(b - 5) + seq![b] + if_in_range(b + 5) + if_in_range(b + 10)
}

/// Clamps the requested quality to `60..=95`.
pub fn jpeg_base_quality(quality: u8) -> (r: u8)
    ensures
        r as int == base_quality(quality),
{
    if quality < 60 {
        60
    } else if quality > 95 {
        95
    } else {
        quality
    }
}

/// The qualities tried by the search, in the order they are tried.
pub fn jpeg_candidate_qualities(quality: u8) -> (r: Vec<u8>)
    ensures
        r@.map_values(|x: u8| x as int) == candidate_qualities(quality),
{
    let b = jpeg_base_quality(quality);
    let mut r: Vec<u8> = Vec::new();
    if b >= 70 {
        r.push(b - 10);
    }
    if b >= 65 {
        r.push(b - 5);
    }
    r.push(b);
    if b <= 90 {
        r.push(b + 5);
    }
    if b <= 85 {
        r.push(b + 10);
    }
    assert(r@.map_values(|x: u8| x as int) =~= candidate_qualities(quality));
    r
}

/// Speed penalty of a quality, in thousandths: 0.05, 0.07 or 0.10.
pub open spec fn speed_penalty(q: int) -> int {
    if q >= 85 {
        50
    } else if q >= 75 {
        70
    } else {
        100
    }
}

/// A byte length as the score sees it: at least one.
pub open spec fn counted(len: int) -> int {
    if len < 1 {
        1
    } else {
        len
    }
}

/// The score `q/100 * 0.5 + (B - S)/B * 0.4 - penalty * 0.1` of an encoding
/// of `size` bytes at quality `q` against a baseline of `base` bytes, scaled
/// by `1000 * B` so that it is an exact integer (`B`, `S` counted as at
/// least one byte). Scaling by a positive factor keeps every comparison.
pub open spec fn scaled_score(base: int, q: int, size: int) -> int {
    let b = counted(base);
    let s = counted(size);
    5 * q * b + 400 * (b - s) - speed_penalty(q) * b / 10
}

/// Exact score of one candidate, scaled as `scaled_score` says.
pub fn jpeg_candidate_score(base_len: usize, quality: u8, len: usize) -> (r: i128)
    ensures
        r as int == scaled_score(base_len as int, quality as int, len as int),
{
    let b: i128 = if base_len < 1 { 1 } else { base_len as i128 };
    let s: i128 = if len < 1 { 1 } else { len as i128 };
    let p: i128 = if quality >= 85 { 5 } else if quality >= 75 { 7 } else { 10 };
    assert(speed_penalty(quality as int) * b / 10 == p * b) by {
        assert(speed_penalty(quality as int) * b == (p * b) * 10) by (nonlinear_arith)
            requires speed_penalty(quality as int) == p * 10;
    }
    assert(0 < b <= 0x1_0000_0000_0000_0000 && 0 < s <= 0x1_0000_0000_0000_0000);
    assert(5 * (quality as i128) * b <= 5 * 255 * 0x1_0000_0000_0000_0000) by (nonlinear_arith)
        requires 0 < b <= 0x1_0000_0000_0000_0000, quality <= 255;
    assert(p * b <= 10 * 0x1_0000_0000_0000_0000) by (nonlinear_arith)
        requires 0 < b <= 0x1_0000_0000_0000_0000, 0 < p <= 10;
    5 * (quality as i128) * b + 400 * (b - s) - p * b
}

/// Score of trial `i` of `trials` (pairs of quality and encoded length).
pub open spec fn trial_score(base: int, trials: Seq<(u8, usize)>, i: int) -> int {
    scaled_score(base, trials[i].0 as int, trials[i].1 as int)
}

/// The trial chosen among the first `n`: the first to beat every earlier
/// one and the baseline floor of zero strictly, or `None` for the baseline.
pub open spec fn chosen_among(base: int, trials: Seq<(u8, usize)>, n: int) -> Option<int>
    decreases n,
{
    if n <= 0 {
        None
    } else {
        let prev = chosen_among(base, trials, n - 1);
        let best = match prev {
            Some(j) => trial_score(base, trials, j),
            None => 0,
        };
        if trial_score(base, trials, n - 1) > best {
            Some(n - 1)
        } else {
            prev
        }
    }
}

pub open spec fn same_choice(r: Option<usize>, c: Option<int>) -> bool {
    match r {
        Some(i) => c == Some(i as int),
        None => c is None,
    }
}

/// Picks the winning encoding among `trials` (quality, encoded length),
/// scored against a baseline of `base_len` bytes: the highest score wins, the
/// earliest trial wins a tie, and the baseline (`None`) stands unless some
/// trial scores above zero.
pub fn select_jpeg_candidate(base_len: usize, trials: &Vec<(u8, usize)>) -> (r: Option<usize>)
    ensures
        same_choice(r, chosen_among(base_len as int, trials@, trials@.len() as int)),
        r matches Some(i) ==> {
            &&& i < trials@.len()
            &&& trial_score(base_len as int, trials@, i as int) > 0
            &&& forall|j: int|
                0 <= j < trials@.len() ==> trial_score(base_len as int, trials@, j)
                    <= trial_score(base_len as int, trials@, i as int)
            &&& forall|j: int|
                0 <= j < i ==> trial_score(base_len as int, trials@, j) < trial_score(
                    base_len as int,
                    trials@,
                    i as int,
                )
        },
        r is None ==> forall|j: int|
            0 <= j < trials@.len() ==> trial_score(base_len as int, trials@, j) <= 0,
{
    let ghost base = base_len as int;
    let mut best: Option<usize> = None;
    let mut best_score: i128 = 0;
    let mut i: usize = 0;
    while i < trials.len()
        invariant
            base == base_len as int,
            i <= trials@.len(),
            same_choice(best, chosen_among(base, trials@, i as int)),
            match best {
                Some(k) => {
                    &&& k < i
                    &&& best_score as int == trial_score(base, trials@, k as int)
                    &&& best_score > 0
                    &&& forall|j: int| 0 <= j < k ==> trial_score(base, trials@, j) < best_score
                },
                None => best_score == 0,
            },
            forall|j: int| 0 <= j < i ==> trial_score(base, trials@, j) <= best_score,
        decreases trials@.len() - i,
    {
        let q = trials[i].0;
        let len = trials[i].1;
        let s = jpeg_candidate_score(base_len, q, len);
        assert(s as int == trial_score(base, trials@, i as int));
        assert(chosen_among(base, trials@, i + 1) == if s > best_score {
            Some(i as int)
        } else {
            chosen_among(base, trials@, i as int)
        });
        if s > best_score {
            best = Some(i);
            best_score = s;
        }
        i = i + 1;
    }
    best
}

#[verifier::external_type_specification]
#[verifier::external_body]
pub struct ExDynamicImage(image::DynamicImage);

#[verifier::external_type_specification]
#[verifier::external_body]
pub struct ExImageError(image::ImageError);

/// Width and height of an image, in pixels.
pub uninterp spec fn dims_of(img: image::DynamicImage) -> (u32, u32);

/// The baseline JPEG that image's encoder makes of `img` at `quality`.
pub uninterp spec fn jpeg_of(img: image::DynamicImage, quality: u8) -> Seq<u8>;

/// Whether both sides of an image fit a JPEG frame header: 1 to 65535.
pub open spec fn jpeg_encodable(img: image::DynamicImage) -> bool {
    1 <= dims_of(img).0 <= 65535 && 1 <= dims_of(img).1 <= 65535
}

/// Relies on image's `JpegEncoder::new_with_quality` and `encode_image`:
/// encodes `img` as a baseline JPEG at `quality` into memory, a function of
/// the pixels and the quality alone. It fails only where a side lies
/// outside 1..=65535 (writing into a `Vec` does not fail).
#[verifier::external_body]
fn encode_jpeg(img: &image::DynamicImage, quality: u8) -> (r: Result<Vec<u8>, image::ImageError>)
    ensures
        r is Ok <==> (1 <= dims_of(*img).0 <= 65535 && 1 <= dims_of(*img).1 <= 65535),
        r matches Ok(v) ==> v@ == jpeg_of(*img, quality),
{
    let mut buffer = Vec::new();
    let mut encoder = image::codecs::jpeg::JpegEncoder::new_with_quality(&mut buffer, quality);
    encoder.encode_image(img)?;
    Ok(buffer)
}

/// The outcome of a JPEG quality search.
pub struct JpegChoice {
    /// The winning encoding.
    pub data: Vec<u8>,
    /// The quality it was encoded at.
    pub quality: u8,
    /// Length of the baseline encoding, at the clamped requested quality.
    pub base_len: usize,
    /// Each candidate quality tried, in order, with its encoded length.
    pub trials: Vec<(u8, usize)>,
}

/// Whether `c` is the outcome the search owes for a requested `quality`:
/// the candidates were tried in order, and the winner is the trial that
/// `chosen_among` names, or the baseline where none is named.
pub open spec fn is_search_outcome(quality: u8, c: JpegChoice) -> bool {
    &&& c.trials@.map_values(|t: (u8, usize)| t.0 as int) == candidate_qualities(quality)
    &&& match chosen_among(c.base_len as int, c.trials@, c.trials@.len() as int) {
        Some(i) => c.quality == c.trials@[i].0 && c.data@.len() == c.trials@[i].1,
        None => c.quality as int == base_quality(quality) && c.data@.len() == c.base_len,
    }
}

/// Whether the trials and the kept bytes of `c` are the encodings of `img`.
pub open spec fn encodings_match(img: image::DynamicImage, quality: u8, c: JpegChoice) -> bool {
    &&& c.data@ == jpeg_of(img, c.quality)
    &&& c.base_len == jpeg_of(img, base_quality(quality) as u8).len()
    &&& forall|k: int|
        0 <= k < c.trials@.len() ==> (#[trigger] c.trials@[k]).1 == jpeg_of(img, c.trials@[k].0).len()
}

/// Lossy JPEG search: encodes at the clamped base quality as a baseline,
/// then at each candidate quality in ascending order, and keeps the
/// best-scoring encoding (the baseline unless a candidate scores above
/// zero). It succeeds exactly where the image can be encoded at all.
pub fn search_jpeg(img: &image::DynamicImage, quality: u8) -> (r: Result<JpegChoice, image::ImageError>)
    ensures
        r is Ok <==> jpeg_encodable(*img),
        r matches Ok(c) ==> is_search_outcome(quality, c) && encodings_match(*img, quality, c),
{
    let base_q = jpeg_base_quality(quality);
    let base = encode_jpeg(img, base_q)?;
    let base_len = base.len();
    let qualities = jpeg_candidate_qualities(quality);
    let mut trials: Vec<(u8, usize)> = Vec::new();
    let mut best: Option<usize> = None;
    let mut best_score: i128 = 0;
    let mut best_data = base;
    let mut best_quality = base_q;
    let mut i: usize = 0;
    while i < qualities.len()
        invariant
            i <= qualities@.len(),
            qualities@.map_values(|x: u8| x as int) == candidate_qualities(quality),
            trials@.len() == i,
            forall|k: int| 0 <= k < i ==> trials@[k].0 == qualities@[k],
            jpeg_encodable(*img),
            base_len == jpeg_of(*img, base_q).len(),
            base_q as int == base_quality(quality),
            best_data@ == jpeg_of(*img, best_quality),
            forall|k: int| 0 <= k < i ==> (#[trigger] trials@[k]).1 == jpeg_of(*img, trials@[k].0).len(),
            same_choice(best, chosen_among(base_len as int, trials@, i as int)),
            match best {
                Some(k) => {
                    &&& k < i
                    &&& best_score as int == trial_score(base_len as int, trials@, k as int)
                    &&& best_quality == trials@[k as int].0
                    &&& best_data@.len() == trials@[k as int].1
                },
                None => {
                    &&& best_score == 0
                    &&& best_quality as int == base_quality(quality)
                    &&& best_data@.len() == base_len
                },
            },
        decreases qualities@.len() - i,
    {
        let q = qualities[i];
        let data = encode_jpeg(img, q)?;
        let len = data.len();
        let s = jpeg_candidate_score(base_len, q, len);
        let ghost before = trials@;
        trials.push((q, len));
        assert(trials@.subrange(0, i as int) =~= before);
        proof {
            lemma_chosen_among_prefix(base_len as int, trials@, i as int);
        }
        assert(chosen_among(base_len as int, trials@, i + 1) == if s > best_score {
            Some(i as int)
        } else {
            chosen_among(base_len as int, trials@, i as int)
        });
        if s > best_score {
            best = Some(i);
            best_score = s;
            best_data = data;
            best_quality = q;
        }
        i = i + 1;
    }
    assert(trials@.map_values(|t: (u8, usize)| t.0 as int) =~= qualities@.map_values(
        |x: u8| x as int,
    ));
    Ok(JpegChoice { data: best_data, quality: best_quality, base_len, trials })
}

/// The trial chosen among the first `n` scores above zero and at least as
/// high as each of them; where none is chosen, none scores above zero.
pub proof fn lemma_chosen_is_best(base: int, trials: Seq<(u8, usize)>, n: int)
    requires
        0 <= n <= trials.len(),
    ensures
        match chosen_among(base, trials, n) {
            Some(i) => 0 <= i < n && trial_score(base, trials, i) > 0 && forall|j: int|
                0 <= j < n ==> trial_score(base, trials, j) <= trial_score(base, trials, i),
            None => forall|j: int| 0 <= j < n ==> trial_score(base, trials, j) <= 0,
        },
    decreases n,
{
    if n > 0 {
        lemma_chosen_is_best(base, trials, n - 1);
    }
}

/// The score in closed form: `B * (5q - p) + 400 * (B - S)`, `p` being the
/// speed penalty in hundredths.
proof fn lemma_score_closed_form(base: int, q: int, size: int)
    ensures
        scaled_score(base, q, size) == counted(base) * (5 * q - speed_penalty(q) / 10) + 400 * (
        counted(base) - counted(size)),
{
    let b = counted(base);
    let p = speed_penalty(q) / 10;
    assert(speed_penalty(q) == 10 * p);
    assert(speed_penalty(q) * b / 10 == p * b) by (nonlinear_arith)
        requires
            speed_penalty(q) == 10 * p,
    ;
    assert(5 * q * b - p * b == b * (5 * q - p)) by (nonlinear_arith);
}

/// With trials at qualities from 60 up to that of the last one, the kept
/// encoding is no larger than the last trial's: a lower quality wins only
/// by being smaller, and the baseline stands only where the last trial is
/// larger than it. (Lengths counted as at least one byte.)
pub proof fn lemma_choice_no_larger_than_top(base: int, trials: Seq<(u8, usize)>)
    requires
        trials.len() > 0,
        forall|j: int| 0 <= j < trials.len() ==> 60 <= (#[trigger] trials[j]).0 <= trials.last().0,
    ensures
        match chosen_among(base, trials, trials.len() as int) {
            Some(i) => counted(trials[i].1 as int) <= counted(trials.last().1 as int),
            None => counted(base) < counted(trials.last().1 as int),
        },
{
    let n = trials.len() as int;
    let m = n - 1;
    lemma_chosen_is_best(base, trials, n);
    let b = counted(base);
    let qm = trials[m].0 as int;
    let sm = counted(trials[m].1 as int);
    let pm = speed_penalty(qm) / 10;
    lemma_score_closed_form(base, qm, trials[m].1 as int);
    match chosen_among(base, trials, n) {
        Some(i) => {
            let qi = trials[i].0 as int;
            let si = counted(trials[i].1 as int);
            let pi = speed_penalty(qi) / 10;
            lemma_score_closed_form(base, qi, trials[i].1 as int);
            assert(qi <= qm && pi >= pm);
            assert(b * (5 * qi - pi) + 400 * (b - si) >= b * (5 * qm - pm) + 400 * (b - sm));
            assert(b * (5 * (qm - qi) + (pi - pm)) >= 0) by (nonlinear_arith)
                requires
                    b >= 1,
                    qm - qi >= 0,
                    pi - pm >= 0,
            ;
            assert(b * (5 * qm - pm) - b * (5 * qi - pi) == b * (5 * (qm - qi) + (pi - pm)))
                by (nonlinear_arith);
        },
        None => {
            assert(b * (5 * qm - pm) + 400 * (b - sm) <= 0);
            assert(b * (5 * qm - pm) > 0) by (nonlinear_arith)
                requires
                    b >= 1,
                    5 * qm - pm > 0,
            ;
        },
    }
}

/// The kept encoding of a search is no larger than the encoding at the
/// highest candidate quality, `min(base + 10, 95)` where that is a
/// candidate (lengths counted as at least one byte).
pub proof fn lemma_search_no_larger_than_top(quality: u8, c: JpegChoice)
    requires
        is_search_outcome(quality, c),
    ensures
        c.trials@.len() > 0,
        counted(c.data@.len() as int) <= counted(c.trials@.last().1 as int),
{
    let cq = candidate_qualities(quality);
    let t = c.trials@;
    assert(t.len() == cq.len());
    assert(cq.len() > 0);
    assert forall|k: int| 0 <= k < cq.len() implies 60 <= #[trigger] cq[k] <= cq.last() by {}
    assert forall|j: int| 0 <= j < t.len() implies 60 <= (#[trigger] t[j]).0 <= t.last().0 by {
        assert(t.map_values(|x: (u8, usize)| x.0 as int)[j] == t[j].0 as int);
        assert(t.map_values(|x: (u8, usize)| x.0 as int)[t.len() - 1] == t.last().0 as int);
    }
    lemma_choice_no_larger_than_top(c.base_len as int, t);
}

/// The choice among the first `n` trials depends on those trials alone.
proof fn lemma_chosen_among_prefix(base: int, trials: Seq<(u8, usize)>, n: int)
    requires
        0 <= n <= trials.len(),
    ensures
        chosen_among(base, trials, n) == chosen_among(base, trials.subrange(0, n), n),
    decreases n,
{
    if n > 0 {
        lemma_chosen_among_prefix(base, trials, n - 1);
        lemma_chosen_among_prefix(base, trials.subrange(0, n), n - 1);
        assert(trials.subrange(0, n).subrange(0, n - 1) =~= trials.subrange(0, n - 1));
        let p = chosen_among(base, trials, n - 1);
        if let Some(j) = p {
            assert(0 <= j < n - 1) by {
                lemma_chosen_among_bound(base, trials, n - 1);
            }
        }
    }
}

proof fn lemma_chosen_among_bound(base: int, trials: Seq<(u8, usize)>, n: int)
    ensures
        chosen_among(base, trials, n) matches Some(j) ==> 0 <= j < n,
    decreases n,
{
    if n > 0 {
        lemma_chosen_among_bound(base, trials, n - 1);
    }
}

} // verus!
