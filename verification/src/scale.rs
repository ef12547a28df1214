use vstd::prelude::*;

verus! {

/// The offset a scaled value carries, in micro-units: a represented offset
/// of ten at the library's fixed-point scale.
pub const SCALE_OFFSET_MICRO: i64 = 10_000_000;

/// An embedding batch in the scaled 64-bit wire format: each value is the
/// micro-unit component plus the offset, as an unsigned integer.
#[derive(Debug)]
pub struct ScaledEmbedding {
    pub values: Vec<Vec<u64>>,
    pub norms: Vec<u64>,
}

/// Scales one micro-unit component for the unsigned wire format.  Only
/// components at least the negated offset are representable.
pub fn scale_value(m: i64) -> (r: Result<u64, String>)
    ensures
        r is Ok <==> m >= -SCALE_OFFSET_MICRO,
        r matches Ok(v) ==> v as int == m + SCALE_OFFSET_MICRO,
{
    if m < -SCALE_OFFSET_MICRO {
        return Err(String::from_str("Scaled value is negative"));
    }
    Ok(((m as i128) + (SCALE_OFFSET_MICRO as i128)) as u64)
}

/// Recovers the micro-unit component from a scaled wire value.  Values too
/// large for the signed representation are refused.
pub fn unscale_value(v: u64) -> (r: Result<i64, String>)
    ensures
        r is Ok <==> v as int - SCALE_OFFSET_MICRO <= i64::MAX as int,
        r matches Ok(m) ==> m as int == v as int - SCALE_OFFSET_MICRO,
{
    if v > (i64::MAX as u64) {
        let back = v - (SCALE_OFFSET_MICRO as u64);
        if back > (i64::MAX as u64) {
            return Err(String::from_str("Scaled value exceeds the signed range"));
        }
        return Ok(back as i64);
    }
    Ok((v as i64) - SCALE_OFFSET_MICRO)
}

/// Scaling then unscaling returns the original component: the round trip
/// over the wire format is exact at the fixed-point resolution.
pub proof fn lemma_scale_unscale_roundtrip(m: i64, v: u64, back: i64)
    requires
        m >= -SCALE_OFFSET_MICRO,
        v as int == m + SCALE_OFFSET_MICRO,
        back as int == v as int - SCALE_OFFSET_MICRO,
    ensures
        back == m,
{
}

/// Scales a whole embedding; fails exactly when some component is below
/// the representable floor.
pub fn scale_embedding(embedding: &Vec<i64>) -> (r: Result<Vec<u64>, String>)
    ensures
        r is Ok <==> (forall|i: int|
            0 <= i < embedding@.len() ==> (#[trigger] embedding@[i]) >= -SCALE_OFFSET_MICRO),
        r matches Ok(vs) ==> (vs@.len() == embedding@.len() && forall|i: int|
            0 <= i < vs@.len() ==> (#[trigger] vs@[i]) as int == embedding@[i]
                + SCALE_OFFSET_MICRO),
{
    let n = embedding.len();
    let mut out: Vec<u64> = Vec::new();
    let mut i: usize = 0;
    while i < n
        invariant
            0 <= i <= n,
            n == embedding@.len(),
            out@.len() == i,
            forall|j: int| 0 <= j < i ==> (#[trigger] embedding@[j]) >= -SCALE_OFFSET_MICRO,
            forall|j: int|
                0 <= j < i ==> (#[trigger] out@[j]) as int == embedding@[j] + SCALE_OFFSET_MICRO,
        decreases n - i,
    {
        match scale_value(embedding[i]) {
            Ok(v) => {
                out.push(v);
            },
            Err(e) => {
                return Err(e);
            },
        }
        i += 1;
    }
    Ok(out)
}

/// Unscales a whole embedding; fails exactly when some wire value exceeds
/// the signed range.
pub fn unscale_embedding(values: &Vec<u64>) -> (r: Result<Vec<i64>, String>)
    ensures
        r is Ok <==> (forall|i: int|
            0 <= i < values@.len() ==> (#[trigger] values@[i]) as int - SCALE_OFFSET_MICRO
                <= i64::MAX as int),
        r matches Ok(ms) ==> (ms@.len() == values@.len() && forall|i: int|
            0 <= i < ms@.len() ==> (#[trigger] ms@[i]) as int == values@[i] as int
                - SCALE_OFFSET_MICRO),
{
    let n = values.len();
    let mut out: Vec<i64> = Vec::new();
    let mut i: usize = 0;
    while i < n
        invariant
            0 <= i <= n,
            n == values@.len(),
            out@.len() == i,
            forall|j: int|
                0 <= j < i ==> (#[trigger] values@[j]) as int - SCALE_OFFSET_MICRO
                    <= i64::MAX as int,
            forall|j: int|
                0 <= j < i ==> (#[trigger] out@[j]) as int == values@[j] as int
                    - SCALE_OFFSET_MICRO,
        decreases n - i,
    {
        match unscale_value(values[i]) {
            Ok(m) => {
                out.push(m);
            },
            Err(e) => {
                return Err(e);
            },
        }
        i += 1;
    }
    Ok(out)
}

} // verus!
