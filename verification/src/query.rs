//! The query parameters of the HTTP interface and what each endpoint reads from them:
//! optional and required values, numbers with their defaults, and RFC 3339 instants.
use vstd::prelude::*;
use vstd::utf8::{encode_utf8, is_ascii_chars, is_ascii_chars_encode_utf8};

verus! {

/// Number of rows a sensor-data or simulation-result query returns when it names no limit.
pub const DEFAULT_QUERY_LIMIT: u32 = 100;

/// Offset of a sensor-data query that names none.
pub const DEFAULT_QUERY_OFFSET: u32 = 0;

/// Number of alerts an active-alert query returns when it names no limit.
pub const DEFAULT_ALERT_LIMIT: u32 = 50;

/// The value of the last pair named `name`: a later pair with the same name replaces an earlier one.
pub open spec fn lookup(pairs: Seq<(Seq<char>, Seq<char>)>, name: Seq<char>) -> Option<Seq<char>>
    decreases pairs.len(),
{
    if pairs.len() == 0 {
        None
    } else if pairs.last().0 == name {
        Some(pairs.last().1)
    } else {
        lookup(pairs.drop_last(), name)
    }
}

/// An ASCII decimal digit.
pub open spec fn is_ascii_digit(b: u8) -> bool {
    48 <= b <= 57
}

/// The number that a string of ASCII decimal digits spells, most significant digit first.
pub open spec fn digits_value(digits: Seq<u8>) -> int
    decreases digits.len(),
{
    if digits.len() == 0 {
        0
    } else {
        digits_value(digits.drop_last()) * 10 + (digits.last() - 48)
    }
}

/// The digits of an unsigned number: the text without one leading `+`.
pub open spec fn unsigned_digits(text: Seq<u8>) -> Seq<u8> {
    if text.len() > 0 && text[0] == 43 {
        text.drop_first()
    } else {
        text
    }
}

/// The `u32` that the UTF-8 text `text` spells: an optional `+`, then one or more decimal
/// digits whose value fits in 32 bits. Anything else spells no number.
pub open spec fn u32_of_text(text: Seq<u8>) -> Option<u32> {
    let digits = unsigned_digits(text);
    if digits.len() > 0 && (forall|i: int| 0 <= i < digits.len() ==> is_ascii_digit(#[trigger] digits[i]))
        && digits_value(digits) <= u32::MAX {
        Some(digits_value(digits) as u32)
    } else {
        None
    }
}

/// A numeric parameter: the number its value spells, or `default` where the parameter is
/// absent or its value spells no `u32`.
pub open spec fn number_or(value: Option<Seq<char>>, default: u32) -> u32 {
    match value {
        Some(text) => match u32_of_text(encode_utf8(text)) {
            Some(n) => n,
            None => default,
        },
        None => default,
    }
}

/// The instant (seconds since 1970-01-01T00:00:00Z and nanoseconds past that second) that an
/// RFC 3339 date-and-time text denotes, or `None` for a text that is not one.
pub uninterp spec fn rfc3339_instant(text: Seq<char>) -> Option<(i64, u32)>;

/// A time parameter: the instant its value denotes, or `None` where the parameter is absent
/// or its value is no RFC 3339 date-and-time.
pub open spec fn instant_of(value: Option<Seq<char>>) -> Option<(i64, u32)> {
    match value {
        Some(text) => rfc3339_instant(text),
        None => None,
    }
}

/// Calls `chrono::DateTime::parse_from_rfc3339` and hands back the instant of the parsed
/// date-and-time, or `None` where chrono refuses the text. Trusted: the result is what chrono's
/// parser gives on the text, named `rfc3339_instant`; nothing more is claimed of that parser.
#[verifier::external_body]
fn parse_rfc3339(text: &str) -> (instant: Option<(i64, u32)>)
    ensures
        instant == rfc3339_instant(text@),
{
    match chrono::DateTime::parse_from_rfc3339(text) {
        Ok(moment) => Some((moment.timestamp(), moment.timestamp_subsec_nanos())),
        Err(_) => None,
    }
}

/// The number a text spells, read as `str::parse::<u32>` reads it.
pub fn parse_u32(text: &str) -> (n: Option<u32>)
    ensures
        n == u32_of_text(encode_utf8(text@)),
{
    let bytes = text.as_bytes();
    let len = bytes.len();
    let ghost text_bytes = encode_utf8(text@);
    let start: usize = if len > 0 && bytes[0] == 43u8 {
        1
    } else {
        0
    };
    let ghost digits = unsigned_digits(text_bytes);
    assert(digits =~= bytes@.subrange(start as int, len as int));
    if start == len {
        return None;
    }
    let mut value: u64 = 0;
    let mut overflow = false;
    let mut i: usize = start;
    while i < len
        invariant
            bytes@ == text_bytes,
            text_bytes == encode_utf8(text@),
            digits == unsigned_digits(text_bytes),
            len == bytes@.len(),
            start <= i <= len,
            digits =~= bytes@.subrange(start as int, len as int),
            forall|k: int| start <= k < i ==> is_ascii_digit(#[trigger] bytes@[k]),
            overflow <==> digits_value(bytes@.subrange(start as int, i as int)) > u32::MAX,
            !overflow ==> value == digits_value(bytes@.subrange(start as int, i as int)),
        decreases len - i,
    {
        let b = bytes[i];
        if b < 48u8 || b > 57u8 {
            proof {
                let k = i - start;
                assert(digits[k] == b);
                assert(!is_ascii_digit(digits[k]));
            }
            return None;
        }
        let ghost prefix = bytes@.subrange(start as int, i as int);
        assert(bytes@.subrange(start as int, i + 1).drop_last() =~= prefix);
        if !overflow {
            value = value * 10 + (b - 48u8) as u64;
            if value > 4294967295u64 {
                overflow = true;
            }
        }
        i = i + 1;
    }
    assert(bytes@.subrange(start as int, len as int) =~= digits);
    if overflow {
        None
    } else {
        Some(value as u32)
    }
}

/// The decimal text of `n`, most significant digit first, without leading zeros.
pub open spec fn decimal_text(n: nat) -> Seq<u8>
    decreases n,
{
    if n < 10 {
        seq![(48 + n) as u8]
    } else {
        decimal_text(n / 10).push((48 + n % 10) as u8)
    }
}

proof fn lemma_decimal_text_digits(n: nat)
    ensures
        decimal_text(n).len() > 0,
        forall|i: int| 0 <= i < decimal_text(n).len() ==> is_ascii_digit(#[trigger] decimal_text(n)[i]),
        digits_value(decimal_text(n)) == n,
    decreases n,
{
    let t = decimal_text(n);
    if n >= 10 {
        lemma_decimal_text_digits(n / 10);
        assert(t.drop_last() =~= decimal_text(n / 10));
        assert(t.last() == 48 + n % 10);
        assert(n == (n / 10) * 10 + n % 10);
        assert(digits_value(t) == digits_value(t.drop_last()) * 10 + (t.last() - 48));
        assert(digits_value(t.drop_last()) == n / 10);
    } else {
        assert(t.last() == 48 + n);
        assert(t.drop_last() =~= Seq::<u8>::empty());
        assert(digits_value(t.drop_last()) == 0);
        assert(digits_value(t) == digits_value(t.drop_last()) * 10 + (t.last() - 48));
    }
}

/// Reading back the decimal text of a number gives the number, with or without a leading `+`.
pub proof fn lemma_parse_decimal_text(n: u32)
    ensures
        u32_of_text(decimal_text(n as nat)) == Some(n),
        u32_of_text(seq![43u8] + decimal_text(n as nat)) == Some(n),
{
    lemma_decimal_text_digits(n as nat);
    let t = decimal_text(n as nat);
    assert(is_ascii_digit(t[0]));
    assert(unsigned_digits(t) == t);
    assert((seq![43u8] + t).drop_first() =~= t);
}

/// A text with a sign other than one leading `+`, or with no digit at all, spells no number.
pub proof fn lemma_no_number_without_digits(text: Seq<u8>)
    requires
        text.len() == 0 || (text.len() == 1 && text[0] == 43) || (text.len() > 0 && text[0] == 45),
    ensures
        u32_of_text(text) is None,
{
    if text.len() > 0 && text[0] == 45 {
        assert(!is_ascii_digit(unsigned_digits(text)[0]));
    }
}

/// The query parameters of a request, in the order in which they were written.
pub struct QueryParams {
    pairs: Vec<(String, String)>,
}

impl View for QueryParams {
    type V = Seq<(Seq<char>, Seq<char>)>;

    closed spec fn view(&self) -> Seq<(Seq<char>, Seq<char>)> {
        self.pairs@.map_values(|pair: (String, String)| (pair.0@, pair.1@))
    }
}

impl QueryParams {
    /// No parameters.
    pub fn new() -> (params: Self)
        ensures
            params@ == Seq::<(Seq<char>, Seq<char>)>::empty(),
    {
        let params = QueryParams { pairs: Vec::new() };
        assert(params@ =~= Seq::<(Seq<char>, Seq<char>)>::empty());
        params
    }

    /// Appends the parameter `name=value`.
    pub fn push(&mut self, name: String, value: String)
        ensures
            final(self)@ == old(self)@.push((name@, value@)),
    {
        self.pairs.push((name, value));
        assert(self@ =~= old(self)@.push((name@, value@)));
    }

    /// The value of the parameter `name`; where it is written more than once, the last value.
    pub fn get(&self, name: &String) -> (value: Option<String>)
        ensures
            value matches Some(v) ==> lookup(self@, name@) == Some(v@),
            value is None ==> lookup(self@, name@) is None,
            value matches Some(v) ==> exists|i: int|
                0 <= i < self@.len() && #[trigger] self@[i] == (name@, v@) && (forall|j: int|
                    i < j < self@.len() ==> (#[trigger] self@[j]).0 != name@),
            value is None ==> forall|i: int| 0 <= i < self@.len() ==> (#[trigger] self@[i]).0 != name@,
    {
        proof {
            lemma_lookup_is_last_written(self@, name@);
        }
        let mut i = self.pairs.len();
        proof {
            assert(self@.take(i as int) =~= self@);
        }
        while i > 0
            invariant
                i <= self.pairs@.len(),
                self@.len() == self.pairs@.len(),
                lookup(self@, name@) == lookup(self@.take(i as int), name@),
            decreases i,
        {
            i = i - 1;
            assert(self@.take(i + 1).drop_last() =~= self@.take(i as int));
            assert(self@[i as int] == (self.pairs@[i as int].0@, self.pairs@[i as int].1@));
            if self.pairs[i].0 == *name {
                proof {
                    lemma_lookup_is_last_written(self@, name@);
                }
                return Some(self.pairs[i].1.clone());
            }
        }
        None
    }

    /// The number that parameter `name` spells, or `default`.
    pub fn number_or(&self, name: &String, default: u32) -> (n: u32)
        ensures
            n == number_or(lookup(self@, name@), default),
            lookup(self@, name@) is None ==> n == default,
            lookup(self@, name@) matches Some(text) ==> (u32_of_text(encode_utf8(text)) matches Some(m)
                ==> n == m),
            lookup(self@, name@) matches Some(text) ==> (u32_of_text(encode_utf8(text)) is None ==> n
                == default),
    {
        match self.get(name) {
            Some(text) => match parse_u32(text.as_str()) {
                Some(n) => n,
                None => default,
            },
            None => default,
        }
    }

    /// The instant that parameter `name` denotes, if it is present and an RFC 3339 date-and-time.
    pub fn instant(&self, name: &String) -> (t: Option<(i64, u32)>)
        ensures
            t == instant_of(lookup(self@, name@)),
            lookup(self@, name@) matches Some(text) ==> t == rfc3339_instant(text),
            lookup(self@, name@) is None ==> t is None,
    {
        match self.get(name) {
            Some(text) => parse_rfc3339(text.as_str()),
            None => None,
        }
    }

    /// The value of the parameter `name`, which the request must carry.
    pub fn require(&self, name: &String) -> (value: Result<String, QueryError>)
        ensures
            value matches Ok(v) ==> lookup(self@, name@) == Some(v@),
            value matches Err(e) ==> lookup(self@, name@) is None && e == (QueryError::MissingParameter {
                name: *name,
            }),
    {
        match self.get(name) {
            Some(v) => Ok(v),
            None => Err(QueryError::MissingParameter { name: name.clone() }),
        }
    }
}

/// A name that was never written has no value; a name that was written has the value of its
/// last pair: the value found is one written under that name, and no later pair carries the name.
pub proof fn lemma_lookup_is_last_written(pairs: Seq<(Seq<char>, Seq<char>)>, name: Seq<char>)
    ensures
        lookup(Seq::empty(), name) is None,
        lookup(pairs, name) is None <==> (forall|i: int| 0 <= i < pairs.len() ==> (#[trigger] pairs[i]).0 != name),
        lookup(pairs, name) matches Some(v) ==> exists|i: int|
            0 <= i < pairs.len() && #[trigger] pairs[i] == (name, v) && (forall|j: int|
                i < j < pairs.len() ==> (#[trigger] pairs[j]).0 != name),
    decreases pairs.len(),
{
    if pairs.len() > 0 {
        let n = pairs.len() - 1;
        let prefix = pairs.drop_last();
        lemma_lookup_is_last_written(prefix, name);
        if pairs[n].0 == name {
            assert(pairs[n] == (name, pairs[n].1));
        } else {
            assert forall|i: int| 0 <= i < prefix.len() implies prefix[i] == pairs[i] by {}
            if let Some(v) = lookup(prefix, name) {
                let i = choose|i: int|
                    0 <= i < prefix.len() && #[trigger] prefix[i] == (name, v) && (forall|j: int|
                        i < j < prefix.len() ==> (#[trigger] prefix[j]).0 != name);
                assert(pairs[i] == (name, v));
                assert forall|j: int| i < j < pairs.len() implies (#[trigger] pairs[j]).0 != name by {
                    if j < n {
                        assert(prefix[j] == pairs[j]);
                    }
                }
            } else {
                assert forall|i: int| 0 <= i < pairs.len() implies (#[trigger] pairs[i]).0 != name by {
                    if i < n {
                        assert(prefix[i] == pairs[i]);
                    }
                }
            }
            if exists|i: int| 0 <= i < pairs.len() && (#[trigger] pairs[i]).0 == name {
                let i = choose|i: int| 0 <= i < pairs.len() && (#[trigger] pairs[i]).0 == name;
                assert(prefix[i] == pairs[i]);
            }
        }
    }
}

/// The digits of a number as characters, most significant first.
pub open spec fn decimal_chars(n: nat) -> Seq<char> {
    decimal_text(n).map_values(|b: u8| b as char)
}

proof fn lemma_decimal_chars_encoding(n: nat)
    ensures
        encode_utf8(decimal_chars(n)) == decimal_text(n),
{
    lemma_decimal_text_digits(n);
    let c = decimal_chars(n);
    let t = decimal_text(n);
    assert(is_ascii_chars(c));
    is_ascii_chars_encode_utf8(c);
    assert forall|i: int| 0 <= i < t.len() implies encode_utf8(c)[i] == t[i] by {
        assert(c[i] as u8 == encode_utf8(c)[i]);
        assert(is_ascii_digit(t[i]));
    }
    assert(encode_utf8(c) =~= t);
}

/// A numeric parameter whose value spells a number is read as that number, whatever the
/// default: the digits of any `u32` (with or without a leading `+`) give back the `u32`. The
/// default stands in only for a parameter that is absent or spells no number.
pub proof fn lemma_number_or_reads_the_number(n: u32, default: u32, text: Seq<char>)
    ensures
        number_or(Some(decimal_chars(n as nat)), default) == n,
        number_or(None, default) == default,
        u32_of_text(encode_utf8(text)) matches Some(m) ==> number_or(Some(text), default) == m,
        u32_of_text(encode_utf8(text)) is None ==> number_or(Some(text), default) == default,
        number_or(Some(text), default) != default ==> u32_of_text(encode_utf8(text)) == Some(
            number_or(Some(text), default),
        ),
{
    lemma_decimal_chars_encoding(n as nat);
    lemma_parse_decimal_text(n);
}

/// A present time parameter is handed to the RFC 3339 reader unchanged, whatever it holds; an
/// absent one denotes no instant.
pub proof fn lemma_instant_of_reads_the_text(text: Seq<char>)
    ensures
        instant_of(Some(text)) == rfc3339_instant(text),
        instant_of(None) is None,
{
}

/// Writing a parameter and reading it back gives the written value; reading another name
/// gives what it gave before.
pub proof fn lemma_lookup_after_push(
    pairs: Seq<(Seq<char>, Seq<char>)>,
    name: Seq<char>,
    value: Seq<char>,
    other: Seq<char>,
)
    ensures
        lookup(pairs.push((name, value)), name) == Some(value),
        other != name ==> lookup(pairs.push((name, value)), other) == lookup(pairs, other),
{
    assert(pairs.push((name, value)).drop_last() =~= pairs);
}

/// Why a request's parameters were refused.
#[derive(Debug)]
pub enum QueryError {
    /// A required parameter is absent.
    MissingParameter { name: String },
}

/// What a sensor-data query asks for.
pub struct SensorDataQuery {
    pub device_id: Option<String>,
    pub limit: u32,
    pub offset: u32,
    /// Earliest instant, seconds and nanoseconds since 1970-01-01T00:00:00Z.
    pub start_time: Option<(i64, u32)>,
    /// Latest instant, seconds and nanoseconds since 1970-01-01T00:00:00Z.
    pub end_time: Option<(i64, u32)>,
}

/// What a simulation-result query asks for.
pub struct SimulationResultsQuery {
    pub device_id: Option<String>,
    pub simulation_id: Option<String>,
    pub limit: u32,
}

/// The view of an optional text.
pub open spec fn text_of(value: Option<String>) -> Option<Seq<char>> {
    match value {
        Some(v) => Some(v@),
        None => None,
    }
}

/// The sensor-data query that `params` asks for: the optional device, at most `limit` rows
/// (100 by default) after `offset` rows (0 by default), between the optional instants
/// `start_time` and `end_time`.
pub fn sensor_data_query(params: &QueryParams) -> (q: SensorDataQuery)
    ensures
        text_of(q.device_id) == lookup(params@, "device_id"@),
        q.limit == number_or(lookup(params@, "limit"@), DEFAULT_QUERY_LIMIT),
        q.offset == number_or(lookup(params@, "offset"@), DEFAULT_QUERY_OFFSET),
        q.start_time == instant_of(lookup(params@, "start_time"@)),
        q.end_time == instant_of(lookup(params@, "end_time"@)),
{
    let device_id = params.get(&String::from_str("device_id"));
    let limit = params.number_or(&String::from_str("limit"), DEFAULT_QUERY_LIMIT);
    let offset = params.number_or(&String::from_str("offset"), DEFAULT_QUERY_OFFSET);
    let start_time = params.instant(&String::from_str("start_time"));
    let end_time = params.instant(&String::from_str("end_time"));
    SensorDataQuery { device_id, limit, offset, start_time, end_time }
}

/// The device whose latest readings a query asks for, if it names one.
pub fn latest_sensor_query(params: &QueryParams) -> (device_id: Option<String>)
    ensures
        text_of(device_id) == lookup(params@, "device_id"@),
{
    params.get(&String::from_str("device_id"))
}

/// The device whose status a query asks for; the parameter `device_id` is required.
pub fn device_status_query(params: &QueryParams) -> (device_id: Result<String, QueryError>)
    ensures
        device_id matches Ok(v) ==> lookup(params@, "device_id"@) == Some(v@),
        device_id matches Err(e) ==> lookup(params@, "device_id"@) is None && (e matches QueryError::MissingParameter { name } && name@ == "device_id"@),
{
    params.require(&String::from_str("device_id"))
}

/// The simulation-result query that `params` asks for: optional device and simulation, at
/// most `limit` results (100 by default).
pub fn simulation_results_query(params: &QueryParams) -> (q: SimulationResultsQuery)
    ensures
        text_of(q.device_id) == lookup(params@, "device_id"@),
        text_of(q.simulation_id) == lookup(params@, "simulation_id"@),
        q.limit == number_or(lookup(params@, "limit"@), DEFAULT_QUERY_LIMIT),
{
    let device_id = params.get(&String::from_str("device_id"));
    let simulation_id = params.get(&String::from_str("simulation_id"));
    let limit = params.number_or(&String::from_str("limit"), DEFAULT_QUERY_LIMIT);
    SimulationResultsQuery { device_id, simulation_id, limit }
}

/// The number of active alerts a query asks for: its `limit`, 50 by default.
pub fn active_alerts_limit(params: &QueryParams) -> (limit: u32)
    ensures
        limit == number_or(lookup(params@, "limit"@), DEFAULT_ALERT_LIMIT),
{
    params.number_or(&String::from_str("limit"), DEFAULT_ALERT_LIMIT)
}

} // verus!
