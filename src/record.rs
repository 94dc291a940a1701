use crate::text::{append_decimal, decimal, digit_char};
use vstd::prelude::*;

verus! {

/// The session-start line: `<session_start_ms>,<delay_ms>,,,<latitude>,<longitude>`.
pub open spec fn session_start_text(
    session_start_ms: nat,
    delay_ms: nat,
    latitude: Seq<char>,
    longitude: Seq<char>,
) -> Seq<char> {
    decimal(session_start_ms) + ","@ + decimal(delay_ms) + ",,,"@ + latitude + ","@ + longitude
}

/// The flag field of a detection line: `1` when the flip could not be located.
pub open spec fn flag_text(ambiguous: bool) -> Seq<char> {
    if ambiguous {
        "1"@
    } else {
        "0"@
    }
}

/// The detection line:
/// `<session_start_ms>,<delay_ms>,<checks_since_last_flip>,<0|1>,<event_time_ms>,<latitude>,<longitude>`.
pub open spec fn detection_text(
    session_start_ms: nat,
    delay_ms: nat,
    checks_since_last_flip: nat,
    ambiguous: bool,
    event_time_ms: nat,
    latitude: Seq<char>,
    longitude: Seq<char>,
) -> Seq<char> {
    decimal(session_start_ms) + ","@ + decimal(delay_ms) + ","@ + decimal(checks_since_last_flip)
        + ","@ + flag_text(ambiguous) + ","@ + decimal(event_time_ms) + ","@ + latitude + ","@
        + longitude
}

/// The number of commas in `s`.
pub open spec fn commas(s: Seq<char>) -> nat
    decreases s.len(),
{
    if s.len() == 0 {
        0
    } else {
        commas(s.drop_last()) + if s.last() == ',' {
            1nat
        } else {
            0nat
        }
    }
}

proof fn lemma_commas_add(a: Seq<char>, b: Seq<char>)
    ensures
        commas(a + b) == commas(a) + commas(b),
    decreases b.len(),
{
    if b.len() == 0 {
        assert(a + b =~= a);
    } else {
        assert((a + b).drop_last() =~= a + b.drop_last());
        lemma_commas_add(a, b.drop_last());
    }
}

proof fn lemma_commas_single(x: char)
    ensures
        commas(seq![x]) == if x == ',' {
            1nat
        } else {
            0nat
        },
{
    assert(seq![x].drop_last() =~= Seq::<char>::empty());
    assert(seq![x].last() == x);
    assert(commas(Seq::<char>::empty()) == 0);
}

proof fn lemma_decimal_has_no_commas(n: nat)
    ensures
        commas(decimal(n)) == 0,
    decreases n,
{
    let d = n % 10;
    assert(((d + 48) as u8) as char != ',') by {
        assert(48 <= d + 48 <= 57);
    }
    if n >= 10 {
        lemma_decimal_has_no_commas(n / 10);
        lemma_commas_add(decimal(n / 10), seq![digit_char(n % 10)]);
    }
    lemma_commas_single(digit_char(d));
}

/// A detection line has exactly seven comma-separated fields whenever the
/// latitude and the longitude hold no comma.
pub proof fn lemma_detection_line_has_seven_fields(r: DetectionRecord)
    requires
        commas(r.latitude@) == 0,
        commas(r.longitude@) == 0,
    ensures
        commas(r.spec_line()) == 6,
{
    reveal_strlit(",");
    reveal_strlit("0");
    reveal_strlit("1");
    let comma = ","@;
    assert(comma =~= seq![',']);
    lemma_commas_single(',');
    let flag = flag_text(r.ambiguous);
    assert(flag =~= seq!['0'] || flag =~= seq!['1']);
    lemma_commas_single('0');
    lemma_commas_single('1');
    let a = decimal(r.session_start_ms as nat);
    let b = decimal(r.delay_ms as nat);
    let c = decimal(r.checks_since_last_flip as nat);
    let e = decimal(r.event_time_ms as nat);
    lemma_decimal_has_no_commas(r.session_start_ms as nat);
    lemma_decimal_has_no_commas(r.delay_ms as nat);
    lemma_decimal_has_no_commas(r.checks_since_last_flip as nat);
    lemma_decimal_has_no_commas(r.event_time_ms as nat);
    let lat = r.latitude@;
    let lon = r.longitude@;
    lemma_commas_add(a, comma);
    lemma_commas_add(a + comma, b);
    lemma_commas_add(a + comma + b, comma);
    lemma_commas_add(a + comma + b + comma, c);
    lemma_commas_add(a + comma + b + comma + c, comma);
    lemma_commas_add(a + comma + b + comma + c + comma, flag);
    lemma_commas_add(a + comma + b + comma + c + comma + flag, comma);
    lemma_commas_add(a + comma + b + comma + c + comma + flag + comma, e);
    lemma_commas_add(a + comma + b + comma + c + comma + flag + comma + e, comma);
    lemma_commas_add(a + comma + b + comma + c + comma + flag + comma + e + comma, lat);
    lemma_commas_add(a + comma + b + comma + c + comma + flag + comma + e + comma + lat, comma);
    lemma_commas_add(
        a + comma + b + comma + c + comma + flag + comma + e + comma + lat + comma,
        lon,
    );
}

/// Serializes the line that opens a monitoring session.
pub fn session_start_line(
    session_start_ms: u64,
    delay_ms: u64,
    latitude: &str,
    longitude: &str,
) -> (r: String)
    ensures
        r@ == session_start_text(session_start_ms as nat, delay_ms as nat, latitude@, longitude@),
{
    proof {
        reveal_strlit(",");
        reveal_strlit(",,,");
    }
    let mut out = String::new();
    append_decimal(&mut out, session_start_ms);
    out.append(",");
    append_decimal(&mut out, delay_ms);
    out.append(",,,");
    out.append(latitude);
    out.append(",");
    out.append(longitude);
    assert(out@ =~= session_start_text(
        session_start_ms as nat,
        delay_ms as nat,
        latitude@,
        longitude@,
    ));
    out
}

/// One detected anomaly, as it is written to the log.
pub struct DetectionRecord {
    pub session_start_ms: u64,
    pub delay_ms: u64,
    pub checks_since_last_flip: u64,
    /// The flipped bit reverted before its index could be found again.
    pub ambiguous: bool,
    pub event_time_ms: u64,
    pub latitude: String,
    pub longitude: String,
}

impl DetectionRecord {
    pub open spec fn spec_line(&self) -> Seq<char> {
        detection_text(
            self.session_start_ms as nat,
            self.delay_ms as nat,
            self.checks_since_last_flip as nat,
            self.ambiguous,
            self.event_time_ms as nat,
            self.latitude@,
            self.longitude@,
        )
    }

    /// Serializes the record as one line of the log, without the line break.
    pub fn to_line(&self) -> (r: String)
        ensures
            r@ == self.spec_line(),
    {
        proof {
            reveal_strlit(",");
            reveal_strlit("0");
            reveal_strlit("1");
        }
        let mut out = String::new();
        append_decimal(&mut out, self.session_start_ms);
        out.append(",");
        append_decimal(&mut out, self.delay_ms);
        out.append(",");
        append_decimal(&mut out, self.checks_since_last_flip);
        out.append(",");
        if self.ambiguous {
            out.append("1");
        } else {
            out.append("0");
        }
        out.append(",");
        append_decimal(&mut out, self.event_time_ms);
        out.append(",");
        out.append(self.latitude.as_str());
        out.append(",");
        out.append(self.longitude.as_str());
        assert(out@ =~= self.spec_line());
        out
    }
}

} // verus!
