//! Admission control: at most `max` requests in flight for each value of a
//! key taken from the request (client address, header, cookie or query
//! parameter).
use crate::plugin::{
    text_response, HandleOutcome, RequestView, ProxyPlugin, ProxyPluginCategory, ProxyPluginStep, State,
    STATUS_TOO_MANY_REQUESTS,
};
use crate::text::{
    cookie_pairs, cookie_pairs_of, find_value, form_pairs, lemma_split_on_len, split_on, split_text, trim,
    trim_text, form_pairs_of, lookup, lookup_ignore_case, opt_view, pairs_view,
    parse_unsigned, parse_unsigned_bounded, radix_digits, radix_text, substring,
};
use pingora_limits::inflight::{Guard, Inflight};
use vstd::prelude::*;
use vstd::utf8::encode_utf8;

verus! {

#[verifier::external_type_specification]
#[verifier::external_body]
pub struct ExInflight(pingora_limits::inflight::Inflight);

#[verifier::external_type_specification]
#[verifier::external_body]
pub struct ExGuard(pingora_limits::inflight::Guard);

/// Relies on `Inflight::new`: a fresh table of in-flight counters.
pub assume_specification[ pingora_limits::inflight::Inflight::new ]() -> Inflight;

/// Relies on `Inflight::incr`: adds one to the counter of `key` and returns
/// the guard that takes it off again when dropped, with the count seen right
/// after the addition. Other requests change the counters concurrently, so
/// of the count only this is stated: it includes this request.
#[verifier::external_body]
fn inflight_incr(table: &Inflight, key: &str) -> (r: (Guard, isize))
    ensures
        r.1 >= 1,
{
    table.incr(key, 1)
}

/// Which part of the request the limited key is read from.
#[derive(PartialEq, Eq, Structural, Debug, Clone, Copy)]
pub enum LimitTag {
    Ip,
    RequestHeader,
    Cookie,
    Query,
}

/// Why a limiter could not be built, or why a request was not admitted.
#[derive(PartialEq, Eq, Debug)]
pub enum Error {
    /// The configuration has no space, or its key is too short.
    Invalid { message: String },
    /// The maximum is not an unsigned 32-bit decimal.
    ParseInt { message: String },
    /// The request would put `value` requests in flight, over `max`.
    Exceed { max: i64, value: i64 },
}

pub open spec fn exceed_text(max: int, value: int) -> Seq<char> {
    "Exceed limit, max: "@ + radix_digits(max as nat, 10) + ", value: "@ + radix_digits(
        value as nat,
        10,
    )
}

impl Error {
    /// The error's description, used as the body of a rejection.
    pub fn message(&self) -> (r: String)
        ensures
            self matches Error::Invalid { message } ==> r@ == "Invalid: "@ + message@,
            self matches Error::ParseInt { message } ==> r@ == "Invalid number: "@ + message@,
            self matches Error::Exceed { max, value } ==> (max >= 0 && value >= 0 ==> r@
                == exceed_text(max as int, value as int)),
    {
        match self {
            Error::Invalid { message } => {
                let r = "Invalid: ".to_string().concat(message.as_str());
                proof {
                    reveal_strlit("Invalid: ");
                }
                r
            },
            Error::ParseInt { message } => {
                let r = "Invalid number: ".to_string().concat(message.as_str());
                proof {
                    reveal_strlit("Invalid number: ");
                }
                r
            },
            Error::Exceed { max, value } => {
                let m = if *max >= 0 { radix_text(*max as u64, 10) } else { "-".to_string() };
                let v = if *value >= 0 { radix_text(*value as u64, 10) } else { "-".to_string() };
                "Exceed limit, max: ".to_string().concat(m.as_str()).concat(", value: ").concat(
                    v.as_str(),
                )
            },
        }
    }
}

/// The selector that a configuration key starts with.
pub open spec fn tag_of(c: char) -> LimitTag {
    if c == '~' {
        LimitTag::Cookie
    } else if c == '>' {
        LimitTag::RequestHeader
    } else if c == '?' {
        LimitTag::Query
    } else {
        LimitTag::Ip
    }
}

/// `i` is the position of the first space in `s`.
pub open spec fn first_space_at(s: Seq<char>, i: int) -> bool {
    0 <= i < s.len() && s[i] == ' ' && forall|j: int| 0 <= j < i ==> s[j] != ' '
}

pub open spec fn has_space(s: Seq<char>) -> bool {
    exists|i: int| 0 <= i < s.len() && s[i] == ' '
}

/// Limits the requests in flight for each value of one key of the request.
pub struct Limiter {
    pub tag: LimitTag,
    pub max: i64,
    pub value: String,
    pub inflight: Inflight,
    pub proxy_step: ProxyPluginStep,
}

fn first_space(s: &str) -> (r: Option<usize>)
    ensures
        r matches Some(i) ==> first_space_at(s@, i as int),
        r is None ==> !has_space(s@),
{
    let n = s.unicode_len();
    let mut i: usize = 0;
    while i < n
        invariant
            n == s@.len(),
            i <= n,
            forall|j: int| 0 <= j < i ==> s@[j] != ' ',
        decreases n - i,
    {
        if s.get_char(i) == ' ' {
            return Some(i);
        }
        i = i + 1;
    }
    None
}

impl Limiter {
    /// Builds a limiter from `<selector><key> <max>`: `~` reads a cookie, `>`
    /// a request header, `?` a query parameter, anything else the client's
    /// address.
    pub fn new(value: &str, proxy_step: ProxyPluginStep) -> (r: Result<Self, Error>)
        ensures
            !has_space(value@) ==> (r matches Err(Error::Invalid { message }) && message@
                == value@),
            forall|i: int| #[trigger]
                first_space_at(value@, i) ==> {
                    let key = value@.subrange(0, i);
                    let max = parse_unsigned(value@.subrange(i + 1, value@.len() as int), u32::MAX as nat);
                    &&& max is None ==> (r matches Err(Error::ParseInt { message }) && message@
                        == value@.subrange(i + 1, value@.len() as int))
                    &&& max is Some && key.len() < 2 ==> (r matches Err(Error::Invalid { message })
                        && message@ == key)
                    &&& max is Some && key.len() >= 2 ==> (r matches Ok(l) && l.tag == tag_of(key[0])
                        && l.value@ == key.drop_first() && l.max == max->0 && l.proxy_step
                        == proxy_step)
                },
    {
        let n = value.unicode_len();
        let sp = match first_space(value) {
            Some(i) => i,
            None => {
                return Err(Error::Invalid { message: value.to_string() });
            },
        };
        assert forall|i: int| #[trigger] first_space_at(value@, i) implies i == sp by {
            if i < sp {
                assert(value@[i] == ' ');
            } else if i > sp {
                assert(value@[sp as int] == ' ');
            }
        }
        let key = value.substring_char(0, sp);
        let rest = value.substring_char(sp + 1, n);
        let max = match parse_unsigned_bounded(rest, 0xffff_ffff) {
            Some(m) => m,
            None => {
                return Err(Error::ParseInt { message: rest.to_string() });
            },
        };
        let key_len = key.unicode_len();
        if key_len < 2 {
            return Err(Error::Invalid { message: key.to_string() });
        }
        let ch = key.get_char(0);
        assert(ch == key@[0]);
        let tag = if ch == '~' {
            LimitTag::Cookie
        } else if ch == '>' {
            LimitTag::RequestHeader
        } else if ch == '?' {
            LimitTag::Query
        } else {
            LimitTag::Ip
        };
        let name = substring(key, 1, key_len);
        assert(name@ =~= key@.drop_first());
        Ok(Limiter { tag, proxy_step, max: max as i64, value: name, inflight: Inflight::new() })
    }

    /// The value that a request is counted under: the header, cookie or
    /// query parameter named by the limiter, or the client's address; empty
    /// when the request has none.
    pub open spec fn key_of(&self, req: &RequestView) -> Seq<char> {
        let found = match self.tag {
            LimitTag::Query => lookup(form_pairs_of(req.query@), self.value@),
            LimitTag::RequestHeader => lookup_ignore_case(pairs_view(req.headers@), self.value@),
            LimitTag::Cookie => match lookup_ignore_case(pairs_view(req.headers@), "cookie"@) {
                Some(h) => lookup(cookie_pairs_of(h), self.value@),
                None => None,
            },
            LimitTag::Ip => Some(req.client_ip@),
        };
        match found {
            Some(v) => v,
            None => Seq::empty(),
        }
    }

    /// Reads the value that `req` is counted under.
    pub fn key(&self, req: &RequestView) -> (r: String)
        ensures
            r@ == self.key_of(req),
    {
        let found = match self.tag {
            LimitTag::Query => {
                let pairs = form_pairs(req.query.as_str());
                find_value(&pairs, self.value.as_str(), false)
            },
            LimitTag::RequestHeader => find_value(&req.headers, self.value.as_str(), true),
            LimitTag::Cookie => match find_value(&req.headers, "cookie", true) {
                Some(h) => {
                    let cookies = cookie_pairs(h.as_str());
                    find_value(&cookies, self.value.as_str(), false)
                },
                None => None,
            },
            LimitTag::Ip => Some(req.client_ip.clone()),
        };
        match found {
            Some(v) => v,
            None => String::new(),
        }
    }

    /// Counts `req` in: records the client's address in `ctx`; a request
    /// without a key is let through uncounted; otherwise the key's counter
    /// goes up by one, and the request is admitted, with its guard kept in
    /// `ctx`, when the count is at most `max`, else refused with the counter
    /// put back.
    pub fn incr(&self, req: &RequestView, ctx: &mut State) -> (r: Result<(), Error>)
        ensures
            final(ctx).client_ip matches Some(ip) && ip@ == req.client_ip@,
            final(ctx).status == old(ctx).status,
            final(ctx).response_body_size == old(ctx).response_body_size,
            self.key_of(req).len() == 0 ==> r is Ok && final(ctx).guard == old(ctx).guard,
            r is Ok && self.key_of(req).len() > 0 ==> final(ctx).guard is Some,
            r is Err ==> final(ctx).guard == old(ctx).guard,
            r matches Err(e) ==> (e matches Error::Exceed { max, value } && max == self.max
                && !admits(max as int, value as int)),
            self.key_of(req).len() > 0 && self.max <= 0 ==> r is Err,
    {
        ctx.client_ip = Some(req.client_ip.clone());
        let key = self.key(req);
        if key.unicode_len() == 0 {
            return Ok(());
        }
        let (guard, count) = inflight_incr(&self.inflight, key.as_str());
        match admission(self.max, count as i64) {
            Ok(()) => {
                ctx.guard = Some(guard);
                Ok(())
            },
            Err(e) => {
                // the rejected attempt's guard is dropped here, undoing its count
                Err(e)
            },
        }
    }

    /// Runs admission for `req`: a refused request is answered with 429 and
    /// the reason; any other goes on down the pipeline.
    pub fn handle(&self, req: &RequestView, ctx: &mut State) -> (r: HandleOutcome)
        ensures
            final(ctx).client_ip matches Some(ip) && ip@ == req.client_ip@,
            self.key_of(req).len() == 0 ==> r is Continue && final(ctx).guard == old(ctx).guard,
            r is Continue && self.key_of(req).len() > 0 ==> final(ctx).guard is Some,
            !(r is Continue) ==> final(ctx).guard == old(ctx).guard && (r matches HandleOutcome::Respond(resp)
                && resp.status == STATUS_TOO_MANY_REQUESTS && resp.headers@.len() == 0 && (self.max
                >= 0 ==> exists|v: int|
                v > self.max && resp.body@ == encode_utf8(#[trigger] exceed_text(self.max as int, v)))),
            self.key_of(req).len() > 0 && self.max <= 0 ==> !(r is Continue),
    {
        match self.incr(req, ctx) {
            Ok(()) => HandleOutcome::Continue,
            Err(e) => {
                let body = e.message();
                proof {
                    if let Error::Exceed { max, value } = e {
                        if self.max >= 0 {
                            assert(body@ == exceed_text(self.max as int, value as int));
                        }
                    }
                }
                HandleOutcome::Respond(text_response(STATUS_TOO_MANY_REQUESTS, body.as_str()))
            },
        }
    }
}

impl ProxyPlugin for Limiter {
    fn step(&self) -> (r: ProxyPluginStep)
        ensures
            r == self.proxy_step,
    {
        self.proxy_step
    }

    fn category(&self) -> (r: ProxyPluginCategory)
        ensures
            r == ProxyPluginCategory::Limit,
    {
        ProxyPluginCategory::Limit
    }
}

/// The client's address: the first entry of `X-Forwarded-For`, else
/// `X-Real-Ip`, else the peer address of the connection.
pub open spec fn client_ip_of(headers: Seq<(Seq<char>, Seq<char>)>, peer: Seq<char>) -> Seq<char> {
    match lookup_ignore_case(headers, "x-forwarded-for"@) {
        Some(v) => trim(split_on(v, ',')[0]),
        None => match lookup_ignore_case(headers, "x-real-ip"@) {
            Some(v) => v,
            None => peer,
        },
    }
}

/// Resolves the client's address from the request headers and the peer
/// address of the connection.
pub fn get_client_ip(headers: &Vec<(String, String)>, peer: &str) -> (r: String)
    ensures
        r@ == client_ip_of(pairs_view(headers@), peer@),
{
    match find_value(headers, "x-forwarded-for", true) {
        Some(v) => {
            let parts = split_text(v.as_str(), ',');
            proof {
                lemma_split_on_len(v@, ',');
                assert(parts@[0]@ == parts@.map_values(|p: String| p@)[0]);
            }
            trim_text(parts[0].as_str())
        },
        None => match find_value(headers, "x-real-ip", true) {
            Some(v) => v,
            None => peer.to_string(),
        },
    }
}

/// A request that finds `observed` requests in flight for its key, itself
/// included, is admitted under a maximum of `max`.
pub open spec fn admits(max: int, observed: int) -> bool {
    observed <= max
}

/// Decides on a request that sees `observed` requests in flight for its key,
/// itself included.
pub fn admission(max: i64, observed: i64) -> (r: Result<(), Error>)
    ensures
        r is Ok <==> admits(max as int, observed as int),
        r matches Err(e) ==> e == (Error::Exceed { max, value: observed }),
{
    if observed > max {
        Err(Error::Exceed { max, value: observed })
    } else {
        Ok(())
    }
}

/// With `held` admissions of one key still in flight, the next one is
/// admitted exactly when `held` is below `max`: the first `max` go through,
/// the one after them is refused while they are held, and once one of them
/// is released exactly one more goes through.
pub proof fn lemma_admission_window(max: int, held: int)
    requires
        0 <= max,
        0 <= held,
    ensures
        admits(max, held + 1) <==> held < max,
        held == max ==> !admits(max, held + 1),
        held == max && max > 0 ==> admits(max, (held - 1) + 1),
{
}

} // verus!
