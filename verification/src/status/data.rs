//! The status grammar: one semi-structured telemetry line parsed into a
//! typed snapshot, tolerating partial or malformed fields without aborting.

use crate::text::char_vec;
use crate::text::find_char;
use crate::text::find_in;
use crate::text::i32_or_zero;
use crate::text::parse_i32_or_zero;
use crate::text::parse_u32_or_zero;
use crate::text::range_eq_lit;
use crate::text::trim;
use crate::text::trim_in;
use crate::text::u32_or_zero;
use vstd::prelude::*;
use vstd::string::StrSliceExecFns;

verus! {

/// Mathematical content of a status snapshot.  Numeric fields are integers;
/// the fractional fields keep the raw text they were sent as.
#[verifier::ext_equal]
pub struct StatusView {
    pub mid: int,
    pub x: int,
    pub y: int,
    pub z: int,
    pub mpry: (int, int, int),
    pub pitch: int,
    pub roll: int,
    pub yaw: int,
    pub vgx: int,
    pub vgy: int,
    pub vgz: int,
    pub templ: int,
    pub temph: int,
    pub tof: int,
    pub h: int,
    pub bat: int,
    pub baro: Seq<char>,
    pub time: int,
    pub agx: Seq<char>,
    pub agy: Seq<char>,
    pub agz: Seq<char>,
}

/// One decoded instant of device status.  The fields `baro`, `agx`, `agy`
/// and `agz` carry fractional readings: they hold the raw field text (empty
/// by default), and callers that want a number convert at the boundary,
/// substituting zero for malformed text as the integer fields do.
#[derive(Debug, PartialEq)]
pub struct StatusData {
    pub mid: i32,
    pub x: i32,
    pub y: i32,
    pub z: i32,
    pub mpry: (i32, i32, i32),
    pub pitch: i32,
    pub roll: i32,
    pub yaw: i32,
    pub vgx: i32,
    pub vgy: i32,
    pub vgz: i32,
    pub templ: i32,
    pub temph: i32,
    pub tof: i32,
    pub h: i32,
    pub bat: u32,
    pub baro: String,
    pub time: i32,
    pub agx: String,
    pub agy: String,
    pub agz: String,
}

impl View for StatusData {
    type V = StatusView;

    open spec fn view(&self) -> StatusView {
        StatusView {
            mid: self.mid as int,
            x: self.x as int,
            y: self.y as int,
            z: self.z as int,
            mpry: (self.mpry.0 as int, self.mpry.1 as int, self.mpry.2 as int),
            pitch: self.pitch as int,
            roll: self.roll as int,
            yaw: self.yaw as int,
            vgx: self.vgx as int,
            vgy: self.vgy as int,
            vgz: self.vgz as int,
            templ: self.templ as int,
            temph: self.temph as int,
            tof: self.tof as int,
            h: self.h as int,
            bat: self.bat as int,
            baro: self.baro@,
            time: self.time as int,
            agx: self.agx@,
            agy: self.agy@,
            agz: self.agz@,
        }
    }
}

/// The all-zero snapshot every parse starts from.
pub open spec fn default_view() -> StatusView {
    StatusView {
        mid: 0,
        x: 0,
        y: 0,
        z: 0,
        mpry: (0, 0, 0),
        pitch: 0,
        roll: 0,
        yaw: 0,
        vgx: 0,
        vgy: 0,
        vgz: 0,
        templ: 0,
        temph: 0,
        tof: 0,
        h: 0,
        bat: 0,
        baro: Seq::<char>::empty(),
        time: 0,
        agx: Seq::<char>::empty(),
        agy: Seq::<char>::empty(),
        agz: Seq::<char>::empty(),
    }
}

impl Default for StatusData {
    /// The snapshot with every field at its zero value.
    fn default() -> (r: Self)
        ensures
            r@ == default_view(),
    {
        let r = StatusData {
            mid: 0,
            x: 0,
            y: 0,
            z: 0,
            mpry: (0, 0, 0),
            pitch: 0,
            roll: 0,
            yaw: 0,
            vgx: 0,
            vgy: 0,
            vgz: 0,
            templ: 0,
            temph: 0,
            tof: 0,
            h: 0,
            bat: 0,
            baro: String::new(),
            time: 0,
            agx: String::new(),
            agy: String::new(),
            agz: String::new(),
        };
        proof {
            assert(r@ =~= default_view());
        }
        r
    }
}

impl Clone for StatusData {
    fn clone(&self) -> (r: Self)
        ensures
            r == self,
    {
        StatusData {
            mid: self.mid,
            x: self.x,
            y: self.y,
            z: self.z,
            mpry: self.mpry,
            pitch: self.pitch,
            roll: self.roll,
            yaw: self.yaw,
            vgx: self.vgx,
            vgy: self.vgy,
            vgz: self.vgz,
            templ: self.templ,
            temph: self.temph,
            tof: self.tof,
            h: self.h,
            bat: self.bat,
            baro: self.baro.clone(),
            time: self.time,
            agx: self.agx.clone(),
            agy: self.agy.clone(),
            agz: self.agz.clone(),
        }
    }
}

/// Whether the CRLF marker starts at position `j`.
pub open spec fn crlf_at(s: Seq<char>, j: int) -> bool {
    0 <= j && j + 1 < s.len() && s[j] == '\r' && s[j + 1] == '\n'
}

/// Index where the first CRLF marker starts, or `s.len()` when none occurs.
pub open spec fn find_crlf(s: Seq<char>) -> int
    decreases s.len(),
{
    if s.len() < 2 {
        s.len() as int
    } else if s[0] == '\r' && s[1] == '\n' {
        0
    } else {
        1 + find_crlf(s.skip(1))
    }
}

pub proof fn lemma_find_crlf(s: Seq<char>)
    ensures
        0 <= find_crlf(s) <= s.len(),
        find_crlf(s) < s.len() ==> crlf_at(s, find_crlf(s)),
        forall|j: int| 0 <= j < find_crlf(s) ==> !crlf_at(s, j),
    decreases s.len(),
{
    if s.len() < 2 {
        assert forall|j: int| 0 <= j < find_crlf(s) implies !crlf_at(s, j) by {}
    } else if s[0] == '\r' && s[1] == '\n' {
    } else {
        lemma_find_crlf(s.skip(1));
        let f = find_crlf(s);
        if f < s.len() {
            assert(crlf_at(s.skip(1), f - 1));
            assert(s.skip(1)[f - 1] == s[f]);
            assert(s.skip(1)[f] == s[f + 1]);
        }
        assert forall|j: int| 0 <= j < f implies !crlf_at(s, j) by {
            if j > 0 {
                assert(!crlf_at(s.skip(1), j - 1));
                assert(s.skip(1)[j - 1] == s[j]);
                if j + 1 < s.len() {
                    assert(s.skip(1)[j] == s[j + 1]);
                }
            }
        }
    }
}

/// The snapshot after one recognized key sets its field.  Unrecognized keys
/// change nothing; malformed numerals degrade to zero rather than failing.
pub open spec fn apply_keyed(d: StatusView, key: Seq<char>, val: Seq<char>) -> StatusView {
    if key == "mid"@ {
        StatusView { mid: i32_or_zero(val), ..d }
    } else if key == "x"@ {
        StatusView { x: i32_or_zero(val), ..d }
    } else if key == "y"@ {
        StatusView { y: i32_or_zero(val), ..d }
    } else if key == "z"@ {
        StatusView { z: i32_or_zero(val), ..d }
    } else if key == "pitch"@ {
        StatusView { pitch: i32_or_zero(val), ..d }
    } else if key == "roll"@ {
        StatusView { roll: i32_or_zero(val), ..d }
    } else if key == "yaw"@ {
        StatusView { yaw: i32_or_zero(val), ..d }
    } else if key == "vgx"@ {
        StatusView { vgx: i32_or_zero(val), ..d }
    } else if key == "vgy"@ {
        StatusView { vgy: i32_or_zero(val), ..d }
    } else if key == "vgz"@ {
        StatusView { vgz: i32_or_zero(val), ..d }
    } else if key == "templ"@ {
        StatusView { templ: i32_or_zero(val), ..d }
    } else if key == "temph"@ {
        StatusView { temph: i32_or_zero(val), ..d }
    } else if key == "tof"@ {
        StatusView { tof: i32_or_zero(val), ..d }
    } else if key == "h"@ {
        StatusView { h: i32_or_zero(val), ..d }
    } else if key == "bat"@ {
        StatusView { bat: u32_or_zero(val), ..d }
    } else if key == "baro"@ {
        StatusView { baro: val, ..d }
    } else if key == "time"@ {
        StatusView { time: i32_or_zero(val), ..d }
    } else if key == "agx"@ {
        StatusView { agx: val, ..d }
    } else if key == "agy"@ {
        StatusView { agy: val, ..d }
    } else if key == "agz"@ {
        StatusView { agz: val, ..d }
    } else if key == "mpry"@ {
        apply_mpry(d, val)
    } else {
        d
    }
}

/// The `mpry` key expects a comma-delimited triplet; any other arity leaves
/// the triplet untouched.
pub open spec fn apply_mpry(d: StatusView, val: Seq<char>) -> StatusView {
    let i = find_char(val, ',');
    if !(0 <= i < val.len()) {
        d
    } else {
        let rest = val.skip(i + 1);
        let j = find_char(rest, ',');
        if !(0 <= j < rest.len()) {
            d
        } else {
            let rest2 = rest.skip(j + 1);
            if find_char(rest2, ',') != rest2.len() {
                d
            } else {
                StatusView {
                    mpry: (i32_or_zero(val.take(i)), i32_or_zero(rest.take(j)), i32_or_zero(rest2)),
                    ..d
                }
            }
        }
    }
}

/// The snapshot after one `key:value` pair.  A pair without a colon is
/// ignored silently; one with more than one colon is skipped; otherwise the
/// trimmed key selects the field and the value text is parsed.
pub open spec fn apply_pair(d: StatusView, pair: Seq<char>) -> StatusView {
    let p = find_char(pair, ':');
    if !(0 <= p < pair.len()) {
        d
    } else {
        let val = pair.skip(p + 1);
        if find_char(val, ':') != val.len() {
            d
        } else {
            apply_keyed(d, trim(pair.take(p)), val)
        }
    }
}

/// The snapshot after every `;`-separated pair of `s` is applied in order.
pub open spec fn parse_pairs(d: StatusView, s: Seq<char>) -> StatusView
    decreases s.len(),
{
    let i = find_char(s, ';');
    if 0 <= i < s.len() {
        parse_pairs(apply_pair(d, s.take(i)), s.skip(i + 1))
    } else {
        apply_pair(d, s)
    }
}

/// The snapshot a whole status line denotes: everything from the first CRLF
/// marker on is ignored, the rest is trimmed and read pair by pair.
pub open spec fn spec_parse_status(s: Seq<char>) -> StatusView {
    parse_pairs(default_view(), trim(s.take(find_crlf(s))))
}

/// Error type of the status parse interface.  The grammar is structurally
/// infallible — every line yields a snapshot — so this error is never
/// produced; it exists for the shape of the interface alone.
#[derive(Debug, PartialEq, Clone)]
pub struct TelloStatusParseError();

impl TelloStatusParseError {
    /// Human-readable description of the (unreachable) parse failure.
    pub fn message(&self) -> (r: String)
        ensures
            r@ == "status parse failed; but this cannot happen."@,
    {
        "status parse failed; but this cannot happen.".to_owned()
    }
}

fn apply_mpry_exec(v: &Vec<char>, d: StatusData, v0: usize, v1: usize) -> (r: StatusData)
    requires
        v0 <= v1 <= v@.len(),
    ensures
        r@ == apply_mpry(d@, v@.subrange(v0 as int, v1 as int)),
{
    let ghost val = v@.subrange(v0 as int, v1 as int);
    let c1 = find_in(v, v0, v1, ',');
    if c1 == v1 {
        return d;
    }
    let ghost rest = val.skip(c1 - v0 + 1);
    proof {
        assert(v@.subrange(c1 + 1, v1 as int) =~= rest);
    }
    let c2 = find_in(v, c1 + 1, v1, ',');
    if c2 == v1 {
        return d;
    }
    let ghost rest2 = rest.skip(c2 - c1);
    proof {
        assert(v@.subrange(c2 + 1, v1 as int) =~= rest.skip(c2 - (c1 + 1) + 1));
        assert(v@.subrange(c2 + 1, v1 as int) =~= rest2);
    }
    let c3 = find_in(v, c2 + 1, v1, ',');
    if c3 < v1 {
        return d;
    }
    proof {
        assert(val.take(c1 - v0) =~= v@.subrange(v0 as int, c1 as int));
        assert(rest.take(c2 - (c1 + 1)) =~= v@.subrange(c1 + 1, c2 as int));
    }
    let a = parse_i32_or_zero(v, v0, c1);
    let b = parse_i32_or_zero(v, c1 + 1, c2);
    let c = parse_i32_or_zero(v, c2 + 1, v1);
    let r = StatusData { mpry: (a, b, c), ..d };
    proof {
        assert(r@ =~= apply_mpry(d@, val));
    }
    r
}

fn apply_keyed_exec(
    src: &str,
    v: &Vec<char>,
    d: StatusData,
    k0: usize,
    k1: usize,
    v0: usize,
    v1: usize,
) -> (r: StatusData)
    requires
        v@ == src@,
        k0 <= k1 <= v@.len(),
        v0 <= v1 <= v@.len(),
    ensures
        r@ == apply_keyed(d@, v@.subrange(k0 as int, k1 as int), v@.subrange(v0 as int, v1 as int)),
{
    let ghost key = v@.subrange(k0 as int, k1 as int);
    let ghost val = v@.subrange(v0 as int, v1 as int);
    if range_eq_lit(v, k0, k1, "mid") {
        StatusData { mid: parse_i32_or_zero(v, v0, v1), ..d }
    } else if range_eq_lit(v, k0, k1, "x") {
        StatusData { x: parse_i32_or_zero(v, v0, v1), ..d }
    } else if range_eq_lit(v, k0, k1, "y") {
        StatusData { y: parse_i32_or_zero(v, v0, v1), ..d }
    } else if range_eq_lit(v, k0, k1, "z") {
        StatusData { z: parse_i32_or_zero(v, v0, v1), ..d }
    } else if range_eq_lit(v, k0, k1, "pitch") {
        StatusData { pitch: parse_i32_or_zero(v, v0, v1), ..d }
    } else if range_eq_lit(v, k0, k1, "roll") {
        StatusData { roll: parse_i32_or_zero(v, v0, v1), ..d }
    } else if range_eq_lit(v, k0, k1, "yaw") {
        StatusData { yaw: parse_i32_or_zero(v, v0, v1), ..d }
    } else if range_eq_lit(v, k0, k1, "vgx") {
        StatusData { vgx: parse_i32_or_zero(v, v0, v1), ..d }
    } else if range_eq_lit(v, k0, k1, "vgy") {
        StatusData { vgy: parse_i32_or_zero(v, v0, v1), ..d }
    } else if range_eq_lit(v, k0, k1, "vgz") {
        StatusData { vgz: parse_i32_or_zero(v, v0, v1), ..d }
    } else if range_eq_lit(v, k0, k1, "templ") {
        StatusData { templ: parse_i32_or_zero(v, v0, v1), ..d }
    } else if range_eq_lit(v, k0, k1, "temph") {
        StatusData { temph: parse_i32_or_zero(v, v0, v1), ..d }
    } else if range_eq_lit(v, k0, k1, "tof") {
        StatusData { tof: parse_i32_or_zero(v, v0, v1), ..d }
    } else if range_eq_lit(v, k0, k1, "h") {
        StatusData { h: parse_i32_or_zero(v, v0, v1), ..d }
    } else if range_eq_lit(v, k0, k1, "bat") {
        StatusData { bat: parse_u32_or_zero(v, v0, v1), ..d }
    } else if range_eq_lit(v, k0, k1, "baro") {
        let r = StatusData { baro: src.substring_char(v0, v1).to_owned(), ..d };
        proof {
            assert(r@ =~= apply_keyed(d@, key, val));
        }
        r
    } else if range_eq_lit(v, k0, k1, "time") {
        StatusData { time: parse_i32_or_zero(v, v0, v1), ..d }
    } else if range_eq_lit(v, k0, k1, "agx") {
        let r = StatusData { agx: src.substring_char(v0, v1).to_owned(), ..d };
        proof {
            assert(r@ =~= apply_keyed(d@, key, val));
        }
        r
    } else if range_eq_lit(v, k0, k1, "agy") {
        let r = StatusData { agy: src.substring_char(v0, v1).to_owned(), ..d };
        proof {
            assert(r@ =~= apply_keyed(d@, key, val));
        }
        r
    } else if range_eq_lit(v, k0, k1, "agz") {
        let r = StatusData { agz: src.substring_char(v0, v1).to_owned(), ..d };
        proof {
            assert(r@ =~= apply_keyed(d@, key, val));
        }
        r
    } else if range_eq_lit(v, k0, k1, "mpry") {
        apply_mpry_exec(v, d, v0, v1)
    } else {
        d
    }
}

fn apply_pair_exec(src: &str, v: &Vec<char>, d: StatusData, p0: usize, p1: usize) -> (r: StatusData)
    requires
        v@ == src@,
        p0 <= p1 <= v@.len(),
    ensures
        r@ == apply_pair(d@, v@.subrange(p0 as int, p1 as int)),
{
    let ghost pair = v@.subrange(p0 as int, p1 as int);
    let colon = find_in(v, p0, p1, ':');
    if colon == p1 {
        return d;
    }
    let ghost val = pair.skip(colon - p0 + 1);
    proof {
        assert(v@.subrange(colon + 1, p1 as int) =~= val);
    }
    let colon2 = find_in(v, colon + 1, p1, ':');
    if colon2 < p1 {
        return d;
    }
    let kb = trim_in(v, p0, colon);
    proof {
        assert(v@.subrange(p0 as int, colon as int) =~= pair.take(colon - p0));
    }
    apply_keyed_exec(src, v, d, kb.0, kb.1, colon + 1, p1)
}

impl StatusData {
    /// Parse one status line.  The parse always succeeds: unknown keys are
    /// ignored, malformed fields degrade to their zero or previous value,
    /// and everything from the first CRLF marker on is discarded.
    pub fn from_str(src: &str) -> (r: Result<StatusData, TelloStatusParseError>)
        ensures
            r matches Ok(d) && d@ == spec_parse_status(src@),
    {
        let v = char_vec(src);
        let n: usize = v.len();
        // locate the CRLF marker, if any
        let mut end: usize = n;
        let mut i: usize = 0;
        while i < n
            invariant_except_break
                n == v@.len(),
                i <= n,
                end == n,
                forall|j: int| 0 <= j < i ==> !crlf_at(v@, j),
            ensures
                end <= n,
                end == n ==> forall|j: int| 0 <= j < n ==> !crlf_at(v@, j),
                end < n ==> crlf_at(v@, end as int) && (forall|j: int|
                    0 <= j < end ==> !crlf_at(v@, j)),
            decreases n - i,
        {
            if v[i] == '\r' && i + 1 < n && v[i + 1] == '\n' {
                end = i;
                break ;
            }
            i = i + 1;
        }
        proof {
            lemma_find_crlf(v@);
            let f = find_crlf(v@);
            if end == n {
                // no marker: every position fails, so the spec finds none
                if f < n {
                    assert(crlf_at(v@, f));
                    assert(!crlf_at(v@, f));
                }
            } else {
                assert(crlf_at(v@, end as int));
                if f < end {
                    assert(!crlf_at(v@, f));
                }
                if f > end {
                    assert(!crlf_at(v@, end as int));
                }
            }
            assert(end == find_crlf(v@));
            assert(v@.subrange(0, end as int) =~= v@.take(end as int));
        }
        let tb = trim_in(&v, 0, end);
        let a = tb.0;
        let b = tb.1;
        let ghost w = v@.subrange(a as int, b as int);
        proof {
            assert(w == trim(v@.take(find_crlf(v@))));
        }
        let mut d = StatusData::default();
        let mut pos: usize = a;
        proof {
            assert(w.skip(0) =~= w);
        }
        loop
            invariant_except_break
                n == v@.len(),
                v@ == src@,
                a <= pos <= b <= n,
                w == v@.subrange(a as int, b as int),
                parse_pairs(default_view(), w) == parse_pairs(d@, w.skip(pos - a)),
            ensures
                d@ == parse_pairs(default_view(), w),
            decreases b - pos,
        {
            let ghost rest = w.skip(pos - a);
            let semi = find_in(&v, pos, b, ';');
            proof {
                assert(v@.subrange(pos as int, b as int) =~= rest);
            }
            d = apply_pair_exec(src, &v, d, pos, semi);
            if semi == b {
                proof {
                    assert(find_char(rest, ';') == rest.len());
                    assert(v@.subrange(pos as int, semi as int) =~= rest);
                }
                break ;
            }
            proof {
                assert(0 <= find_char(rest, ';') < rest.len());
                assert(v@.subrange(pos as int, semi as int) =~= rest.take(semi - pos));
                assert(w.skip(semi + 1 - a) =~= rest.skip(semi - pos + 1));
            }
            pos = semi + 1;
        }
        proof {
            assert(v@ == src@);
        }
        Ok(d)
    }
}

} // verus!
