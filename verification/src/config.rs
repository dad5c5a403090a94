//! Host configuration taken from the environment, bearer-token
//! authentication, and the CORS origins that the configuration allows.
use vstd::prelude::*;
use vstd::utf8::encode_utf8;

use crate::error::{is_status_code, HostError, INTERNAL_SERVER_ERROR, UNAUTHORIZED};
use crate::numeric::{parse_u16, parse_unsigned, parse_usize};
use crate::text::{has_prefix, split_on, str_equal, starts_with, trim, trim_str};

verus! {

/// Where Kovrex files are fetched from unless the environment says otherwise.
pub const DEFAULT_KOVREX_FILE_API: &'static str = "https://gateway.kovrex.ai/v1/files";

/// Request body limit, in MiB, unless the environment says otherwise.
pub const DEFAULT_BODY_MB: usize = 50;

/// Port used when none is configured.
pub const DEFAULT_PORT: u16 = 8080;

/// Address bound when none is configured.
pub const DEFAULT_BIND: &'static str = "0.0.0.0";

/// The settings of a hosted operator.
#[derive(Clone, Debug)]
pub struct HostConfig {
    pub bind: String,
    pub port: u16,
    pub api_token: Option<String>,
    pub allowed_origins: Vec<String>,
    pub max_body_bytes: usize,
    pub kovrex_file_api: String,
}

/// The values of the environment variables a host reads, each `None` when
/// the variable is unset or not valid Unicode.
#[derive(Clone, Debug)]
pub struct HostEnv {
    /// `CMDRVL_HOST_PORT`
    pub host_port: Option<String>,
    /// `PORT`
    pub port: Option<String>,
    /// `CMDRVL_HOST_MAX_BODY_MB`
    pub max_body_mb: Option<String>,
    /// `CMDRVL_HOST_ALLOWED_ORIGINS`
    pub allowed_origins: Option<String>,
    /// `CMDRVL_HOST_BIND`
    pub bind: Option<String>,
    /// `CMDRVL_HOST_API_TOKEN`
    pub api_token: Option<String>,
    /// `CMDRVL_KOVREX_FILE_API`
    pub kovrex_file_api: Option<String>,
}

/// The characters of an optional string.
pub open spec fn opt_view(o: Option<String>) -> Option<Seq<char>> {
    match o {
        Some(s) => Some(s@),
        None => None,
    }
}

/// The characters of each string of a sequence.
pub open spec fn strings_view(v: Seq<String>) -> Seq<Seq<char>> {
    v.map_values(|s: String| s@)
}

/// The port: `CMDRVL_HOST_PORT` if set, else `PORT`; the value read as a
/// `u16`, or 8080 when unset or unreadable.  A set but unreadable
/// `CMDRVL_HOST_PORT` does not fall back to `PORT`.
pub open spec fn spec_port(host_port: Option<Seq<char>>, port: Option<Seq<char>>) -> u16 {
    let raw = if host_port is Some {
        host_port
    } else {
        port
    };
    match raw {
        Some(r) => match parse_unsigned(r, 10, 0xffff) {
            Some(v) => v as u16,
            None => DEFAULT_PORT,
        },
        None => DEFAULT_PORT,
    }
}

/// The body limit in MiB: the value read as a `usize`, or 50.
pub open spec fn spec_body_mb(raw: Option<Seq<char>>) -> nat {
    match raw {
        Some(r) => match parse_unsigned(r, 10, usize::MAX as nat) {
            Some(v) => v,
            None => DEFAULT_BODY_MB as nat,
        },
        None => DEFAULT_BODY_MB as nat,
    }
}

/// Trimmed pieces, empty ones left out.
pub open spec fn clean_pieces(p: Seq<Seq<char>>) -> Seq<Seq<char>>
    decreases p.len(),
{
    if p.len() == 0 {
        Seq::<Seq<char>>::empty()
    } else {
        let rest = clean_pieces(p.drop_last());
        let t = trim(p.last());
        if t.len() > 0 {
            rest.push(t)
        } else {
            rest
        }
    }
}

/// The origins named by a comma-separated list: each piece trimmed, empty
/// pieces left out.
pub open spec fn spec_allowed_origins(raw: Seq<char>) -> Seq<Seq<char>> {
    clean_pieces(split_on(raw, ','))
}

/// A configured token is never empty: an empty `CMDRVL_HOST_API_TOKEN`
/// means no token.
pub proof fn lemma_configured_token_non_empty(raw: Option<Seq<char>>)
    ensures
        spec_api_token(raw) matches Some(t) ==> t.len() > 0,
        raw == Some(Seq::<char>::empty()) ==> spec_api_token(raw) is None,
{
}

/// A port written in decimal in `CMDRVL_HOST_PORT` is the port used.
pub proof fn lemma_decimal_port_is_used(port: u16, fallback: Option<Seq<char>>)
    ensures
        spec_port(Some(crate::numeric::decimal(port as nat)), fallback) == port,
{
    crate::numeric::lemma_decimal_parses(port as nat, 0xffff);
}

/// The body limit is the decimal number `CMDRVL_HOST_MAX_BODY_MB` names, in
/// MiB: a value written in decimal is the limit used.
pub proof fn lemma_decimal_body_limit_is_used(mb: nat)
    requires
        mb <= usize::MAX,
    ensures
        spec_body_mb(Some(crate::numeric::decimal(mb))) == mb,
{
    crate::numeric::lemma_decimal_parses(mb, usize::MAX as nat);
}

/// Without `CMDRVL_HOST_MAX_BODY_MB` the limit is 50 MiB.
pub proof fn lemma_default_body_limit()
    ensures
        spec_body_mb(None) == 50,
{
}

/// The token, unless it is empty.
pub open spec fn spec_api_token(raw: Option<Seq<char>>) -> Option<Seq<char>> {
    match raw {
        Some(t) => if t.len() > 0 {
            Some(t)
        } else {
            None
        },
        None => None,
    }
}

fn push_trimmed(out: &mut Vec<String>, piece: &str)
    ensures
        strings_view(final(out)@) == (if trim(piece@).len() > 0 {
            strings_view(old(out)@).push(trim(piece@))
        } else {
            strings_view(old(out)@)
        }),
{
    let t = trim_str(piece);
    if t.unicode_len() > 0 {
        out.push(t.to_owned());
        assert(strings_view(out@) =~= strings_view(old(out)@).push(trim(piece@)));
    }
}

/// Splits a comma-separated origin list; see [`spec_allowed_origins`].
pub fn parse_allowed_origins(raw: &str) -> (r: Vec<String>)
    ensures
        strings_view(r@) == spec_allowed_origins(raw@),
{
    let n = raw.unicode_len();
    let mut out: Vec<String> = Vec::new();
    let mut start: usize = 0;
    let mut i: usize = 0;
    let ghost mut done: Seq<Seq<char>> = Seq::empty();
    assert(raw@.take(0) =~= Seq::<char>::empty());
    assert(split_on(raw@.take(0), ',') =~= done.push(raw@.subrange(0, 0)));
    assert(strings_view(out@) =~= clean_pieces(done));
    while i < n
        invariant
            n == raw@.len(),
            start <= i <= n,
            split_on(raw@.take(i as int), ',') == done.push(raw@.subrange(start as int, i as int)),
            strings_view(out@) == clean_pieces(done),
        decreases n - i,
    {
        let c = raw.get_char(i);
        let ghost prefix = raw@.take(i + 1);
        assert(prefix.drop_last() =~= raw@.take(i as int));
        assert(prefix.last() == c);
        if c == ',' {
            let piece = raw.substring_char(start, i);
            push_trimmed(&mut out, piece);
            proof {
                let old_done = done;
                done = done.push(raw@.subrange(start as int, i as int));
                assert(done.drop_last() =~= old_done);
                assert(raw@.subrange(i + 1, i + 1) =~= Seq::<char>::empty());
            }
            start = i + 1;
        } else {
            proof {
                assert(raw@.subrange(start as int, i as int).push(c) =~= raw@.subrange(
                    start as int,
                    i + 1,
                ));
                assert(done.push(raw@.subrange(start as int, i as int)).update(
                    done.len() as int,
                    raw@.subrange(start as int, i + 1),
                ) =~= done.push(raw@.subrange(start as int, i + 1)));
            }
        }
        i += 1;
    }
    let piece = raw.substring_char(start, n);
    push_trimmed(&mut out, piece);
    proof {
        assert(raw@.take(n as int) =~= raw@);
        let all = done.push(raw@.subrange(start as int, n as int));
        assert(all.drop_last() =~= done);
    }
    out
}

/// Splitting at a separator gives the pieces of each side, in order.
pub proof fn lemma_split_on_separator(a: Seq<char>, b: Seq<char>, sep: char)
    ensures
        split_on(a + seq![sep] + b, sep) == split_on(a, sep) + split_on(b, sep),
    decreases b.len(),
{
    let s = a + seq![sep] + b;
    if b.len() == 0 {
        assert(s.drop_last() =~= a);
        assert(s.last() == sep);
        assert(split_on(b, sep) =~= seq![Seq::<char>::empty()]);
        assert(split_on(a, sep).push(Seq::<char>::empty()) =~= split_on(a, sep) + split_on(b, sep));
    } else {
        let b2 = b.drop_last();
        lemma_split_on_separator(a, b2, sep);
        assert(s.drop_last() =~= a + seq![sep] + b2);
        assert(s.last() == b.last());
        crate::text::lemma_split_on_nonempty(b2, sep);
        crate::text::lemma_split_on_nonempty(a, sep);
        let pa = split_on(a, sep);
        let pb = split_on(b2, sep);
        if b.last() == sep {
            assert((pa + pb).push(Seq::<char>::empty()) =~= pa + pb.push(Seq::<char>::empty()));
        } else {
            assert((pa + pb).update(
                (pa + pb).len() - 1,
                (pa + pb).last().push(b.last()),
            ) =~= pa + pb.update(pb.len() - 1, pb.last().push(b.last())));
        }
    }
}

/// A string without the separator is a single piece.
pub proof fn lemma_split_on_without_separator(s: Seq<char>, sep: char)
    requires
        !s.contains(sep),
    ensures
        split_on(s, sep) == seq![s],
    decreases s.len(),
{
    if s.len() == 0 {
        assert(s =~= Seq::<char>::empty());
        assert(split_on(s, sep) =~= seq![s]);
    } else {
        let t = s.drop_last();
        assert(!t.contains(sep)) by {
            if t.contains(sep) {
                let k = choose|k: int| 0 <= k < t.len() && t[k] == sep;
                assert(s[k] == sep);
            }
        }
        lemma_split_on_without_separator(t, sep);
        assert(s.last() != sep) by {
            assert(s[s.len() - 1] == s.last());
        }
        assert(t.push(s.last()) =~= s);
        assert(seq![t].update(0, t.push(s.last())) =~= seq![s]);
    }
}

proof fn lemma_clean_pieces_append(p: Seq<Seq<char>>, q: Seq<Seq<char>>)
    ensures
        clean_pieces(p + q) == clean_pieces(p) + clean_pieces(q),
    decreases q.len(),
{
    if q.len() == 0 {
        assert(p + q =~= p);
        assert(clean_pieces(p) + clean_pieces(q) =~= clean_pieces(p));
    } else {
        let q2 = q.drop_last();
        lemma_clean_pieces_append(p, q2);
        assert((p + q).drop_last() =~= p + q2);
        assert((p + q).last() == q.last());
        let t = trim(q.last());
        if t.len() > 0 {
            assert((clean_pieces(p) + clean_pieces(q2)).push(t) =~= clean_pieces(p) + clean_pieces(
                q2,
            ).push(t));
        }
    }
}

/// The origins of a list joined at a comma are the origins of each part, in
/// order.
pub proof fn lemma_allowed_origins_split_at_comma(a: Seq<char>, b: Seq<char>)
    ensures
        spec_allowed_origins(a + seq![','] + b) == spec_allowed_origins(a) + spec_allowed_origins(b),
{
    lemma_split_on_separator(a, b, ',');
    lemma_clean_pieces_append(split_on(a, ','), split_on(b, ','));
}

/// A list without commas names one origin, the trimmed text, unless that is
/// empty.
pub proof fn lemma_allowed_origins_single(s: Seq<char>)
    requires
        !s.contains(','),
    ensures
        spec_allowed_origins(s) == (if trim(s).len() > 0 {
            seq![trim(s)]
        } else {
            Seq::<Seq<char>>::empty()
        }),
{
    lemma_split_on_without_separator(s, ',');
    let p = seq![s];
    assert(p.drop_last() =~= Seq::<Seq<char>>::empty());
    assert(p.last() == s);
    assert(clean_pieces(Seq::<Seq<char>>::empty()) == Seq::<Seq<char>>::empty());
    assert(clean_pieces(p.drop_last()) == Seq::<Seq<char>>::empty());
    assert(split_on(s, ',') == p);
    if trim(s).len() > 0 {
        assert(Seq::<Seq<char>>::empty().push(trim(s)) =~= seq![trim(s)]);
    }
}

/// Every origin produced is non-empty, free of surrounding whitespace and
/// of commas.
pub proof fn lemma_allowed_origins_are_clean(raw: Seq<char>)
    ensures
        forall|i: int|
            0 <= i < spec_allowed_origins(raw).len() ==> {
                let o = #[trigger] spec_allowed_origins(raw)[i];
                &&& o.len() > 0
                &&& trim(o) == o
                &&& !o.contains(',')
            },
{
    lemma_split_pieces_have_no_sep(raw, ',');
    lemma_clean_pieces(split_on(raw, ','));
}

proof fn lemma_clean_pieces(p: Seq<Seq<char>>)
    requires
        forall|i: int| 0 <= i < p.len() ==> !(#[trigger] p[i]).contains(','),
    ensures
        forall|i: int|
            0 <= i < clean_pieces(p).len() ==> {
                let o = #[trigger] clean_pieces(p)[i];
                &&& o.len() > 0
                &&& trim(o) == o
                &&& !o.contains(',')
            },
    decreases p.len(),
{
    if p.len() > 0 {
        let q = p.drop_last();
        assert forall|i: int| 0 <= i < q.len() implies !(#[trigger] q[i]).contains(',') by {
            assert(q[i] == p[i]);
        }
        lemma_clean_pieces(q);
        let t = trim(p.last());
        crate::text::lemma_trim_idempotent(p.last());
        let a = crate::text::lemma_trim_is_infix(p.last());
        assert(!t.contains(',')) by {
            if t.contains(',') {
                let k = choose|k: int| 0 <= k < t.len() && t[k] == ',';
                assert(p.last().subrange(a, a + t.len())[k] == ',');
                assert(p.last()[a + k] == ',');
            }
        }
        let rest = clean_pieces(q);
        assert forall|i: int| 0 <= i < clean_pieces(p).len() implies {
            let o = #[trigger] clean_pieces(p)[i];
            &&& o.len() > 0
            &&& trim(o) == o
            &&& !o.contains(',')
        } by {
            if i < rest.len() {
                assert(clean_pieces(p)[i] == rest[i]);
            } else {
                assert(clean_pieces(p)[i] == t);
            }
        }
    }
}

proof fn lemma_split_pieces_have_no_sep(s: Seq<char>, sep: char)
    ensures
        forall|i: int| 0 <= i < split_on(s, sep).len() ==> !(#[trigger] split_on(s, sep)[i]).contains(sep),
    decreases s.len(),
{
    crate::text::lemma_split_on_nonempty(s, sep);
    if s.len() > 0 {
        let t = s.drop_last();
        lemma_split_pieces_have_no_sep(t, sep);
        crate::text::lemma_split_on_nonempty(t, sep);
        let rest = split_on(t, sep);
        if s.last() != sep {
            let np = rest.last().push(s.last());
            assert forall|i: int| 0 <= i < split_on(s, sep).len() implies !(#[trigger] split_on(
                s,
                sep,
            )[i]).contains(sep) by {
                if i == rest.len() - 1 {
                    if np.contains(sep) {
                        let k = choose|k: int| 0 <= k < np.len() && np[k] == sep;
                        if k < rest.last().len() {
                            assert(rest.last()[k] == sep);
                        }
                    }
                } else {
                    assert(split_on(s, sep)[i] == rest[i]);
                }
            }
        } else {
            assert forall|i: int| 0 <= i < split_on(s, sep).len() implies !(#[trigger] split_on(
                s,
                sep,
            )[i]).contains(sep) by {
                if i < rest.len() {
                    assert(split_on(s, sep)[i] == rest[i]);
                }
            }
        }
    }
}

impl HostConfig {
    /// The configuration that the given environment describes.
    ///
    /// The body limit is given in MiB and stored in bytes; a limit whose
    /// byte count does not fit in a `usize` is left out, as the product
    /// overflows there.
    pub fn from_env(env: HostEnv) -> (c: Self)
        requires
            spec_body_mb(opt_view(env.max_body_mb)) * 1048576 <= usize::MAX,
        ensures
            c.port == spec_port(opt_view(env.host_port), opt_view(env.port)),
            c.max_body_bytes == spec_body_mb(opt_view(env.max_body_mb)) * 1048576,
            strings_view(c.allowed_origins@) == (match env.allowed_origins {
                Some(raw) => spec_allowed_origins(raw@),
                None => Seq::<Seq<char>>::empty(),
            }),
            c.bind@ == (match env.bind {
                Some(b) => b@,
                None => DEFAULT_BIND@,
            }),
            opt_view(c.api_token) == spec_api_token(opt_view(env.api_token)),
            c.kovrex_file_api@ == (match env.kovrex_file_api {
                Some(a) => a@,
                None => DEFAULT_KOVREX_FILE_API@,
            }),
    {
        let raw_port = match env.host_port {
            Some(p) => Some(p),
            None => env.port,
        };
        let port = match raw_port {
            Some(raw) => match parse_u16(raw.as_str()) {
                Some(p) => p,
                None => DEFAULT_PORT,
            },
            None => DEFAULT_PORT,
        };
        let max_body_mb = match env.max_body_mb {
            Some(raw) => match parse_usize(raw.as_str()) {
                Some(v) => v,
                None => DEFAULT_BODY_MB,
            },
            None => DEFAULT_BODY_MB,
        };
        let allowed_origins = match env.allowed_origins {
            Some(raw) => parse_allowed_origins(raw.as_str()),
            None => {
                let v: Vec<String> = Vec::new();
                assert(strings_view(v@) =~= Seq::<Seq<char>>::empty());
                v
            },
        };
        let bind = match env.bind {
            Some(b) => b,
            None => DEFAULT_BIND.to_owned(),
        };
        let api_token = match env.api_token {
            Some(t) => if t.as_str().unicode_len() > 0 {
                Some(t)
            } else {
                None
            },
            None => None,
        };
        let kovrex_file_api = match env.kovrex_file_api {
            Some(a) => a,
            None => DEFAULT_KOVREX_FILE_API.to_owned(),
        };
        HostConfig {
            bind,
            port,
            api_token,
            allowed_origins,
            max_body_bytes: max_body_mb * 1024 * 1024,
            kovrex_file_api,
        }
    }
}

/// The token a request presents: what follows `Bearer ` (or `bearer `) in
/// its `Authorization` header, and the empty string otherwise.
pub open spec fn presented_token(auth_header: Option<Seq<char>>) -> Seq<char> {
    let raw = match auth_header {
        Some(h) => h,
        None => Seq::<char>::empty(),
    };
    if has_prefix(raw, "Bearer "@) {
        raw.skip("Bearer "@.len() as int)
    } else if has_prefix(raw, "bearer "@) {
        raw.skip("bearer "@.len() as int)
    } else {
        Seq::<char>::empty()
    }
}

/// The message of a refused request.
pub open spec fn unauthorized_message() -> Seq<char> {
    "invalid or missing bearer token"@
}

/// Checks a request's `Authorization` header against the configured token.
///
/// Without a configured token every request passes.  With one, a request
/// passes exactly when the token it presents equals the configured one; a
/// refused request gets `401` with a fixed message.
pub fn authenticate(config: &HostConfig, auth_header: Option<&str>) -> (r: Result<(), HostError>)
    ensures
        match config.api_token {
            None => r is Ok,
            Some(expected) => {
                &&& (r is Ok <==> presented_token(
                    match auth_header {
                        Some(h) => Some(h@),
                        None => None,
                    },
                ) == expected@)
                &&& (r matches Err(e) ==> e.spec_status() == UNAUTHORIZED && e.spec_message()
                    == unauthorized_message())
            },
        },
{
    match &config.api_token {
        None => Ok(()),
        Some(expected) => {
            let raw: &str = match auth_header {
                Some(h) => h,
                None => "",
            };
            proof {
                reveal_strlit("");
            }
            let provided: &str = if starts_with(raw, "Bearer ") {
                proof {
                    reveal_strlit("Bearer ");
                }
                let n = raw.unicode_len();
                raw.substring_char(7, n)
            } else if starts_with(raw, "bearer ") {
                proof {
                    reveal_strlit("bearer ");
                }
                let n = raw.unicode_len();
                raw.substring_char(7, n)
            } else {
                ""
            };
            assert(provided@ == presented_token(
                match auth_header {
                    Some(h) => Some(h@),
                    None => None,
                },
            ));
            if str_equal(provided, expected.as_str()) {
                Ok(())
            } else {
                let message = "invalid or missing bearer token".to_owned();
                Err(HostError::unauthorized(message))
            }
        },
    }
}

/// A request that presents the configured token as `Bearer <token>` is
/// accepted, whatever the token.
pub proof fn lemma_bearer_token_accepted(token: Seq<char>)
    ensures
        presented_token(Some("Bearer "@ + token)) == token,
{
    let h = "Bearer "@ + token;
    assert(h.subrange(0, "Bearer "@.len() as int) =~= "Bearer "@);
    assert(h.skip("Bearer "@.len() as int) =~= token);
}

/// The lower-case scheme works the same way: `bearer <token>` presents the
/// token exactly as written, whatever the token.
pub proof fn lemma_lowercase_bearer_token_accepted(token: Seq<char>)
    ensures
        presented_token(Some("bearer "@ + token)) == token,
{
    reveal_strlit("Bearer ");
    reveal_strlit("bearer ");
    let h = "bearer "@ + token;
    assert(h.subrange(0, "bearer "@.len() as int) =~= "bearer "@);
    assert(h.skip("bearer "@.len() as int) =~= token);
    assert(!has_prefix(h, "Bearer "@)) by {
        assert(h[0] == 'b');
        assert("Bearer "@[0] == 'B');
        assert(h.subrange(0, 7)[0] == 'b');
    }
}

/// A header without either scheme presents no token.
pub proof fn lemma_other_header_presents_nothing(h: Seq<char>)
    requires
        !has_prefix(h, "Bearer "@),
        !has_prefix(h, "bearer "@),
    ensures
        presented_token(Some(h)) == Seq::<char>::empty(),
{
}

/// A request without an `Authorization` header presents the empty token, so
/// it is refused whenever a non-empty token is configured.
pub proof fn lemma_missing_header_presents_nothing()
    ensures
        presented_token(None) == Seq::<char>::empty(),
{
    reveal_strlit("Bearer ");
    reveal_strlit("bearer ");
}

/// The bytes an HTTP header value may hold: tab, and everything from space
/// upward except DEL.
pub open spec fn header_bytes_ok(b: Seq<u8>) -> bool {
    forall|i: int| 0 <= i < b.len() ==> (b[i] >= 32 && b[i] != 127) || b[i] == 9
}

/// Whether a string can be an HTTP header value.
pub open spec fn header_value_ok(s: Seq<char>) -> bool {
    header_bytes_ok(encode_utf8(s))
}

/// `axum::http::HeaderValue::from_str`: its source accepts exactly the
/// strings whose every byte is a tab or at least 32 and not 127, and its
/// error displays as `failed to parse header value`.  Returns that error
/// text, or `None` when the value is accepted.
#[verifier::external_body]
fn header_value_error(value: &str) -> (r: Option<String>)
    ensures
        r is None <==> header_value_ok(value@),
        r matches Some(t) ==> t@ == "failed to parse header value"@,
{
    match axum::http::HeaderValue::from_str(value) {
        Ok(_) => None,
        Err(error) => Some(error.to_string()),
    }
}

/// The origins a CORS layer allows.
#[derive(Clone, Debug)]
pub enum CorsOrigins {
    /// Any origin (`*`).
    Any,
    /// Exactly these origins.
    List(Vec<String>),
}

/// The CORS layer of a host: the origins it allows, and the request methods
/// and headers it allows from them.
#[derive(Clone, Debug)]
pub struct CorsPolicy {
    pub origins: CorsOrigins,
    pub methods: Vec<String>,
    pub headers: Vec<String>,
}

/// The methods a CORS layer allows.
pub open spec fn cors_methods() -> Seq<Seq<char>> {
    seq!["GET"@, "POST"@]
}

/// The request headers a CORS layer allows.
pub open spec fn cors_headers() -> Seq<Seq<char>> {
    seq!["authorization"@, "content-type"@]
}

/// The CORS layer a configuration asks for: none without configured origins;
/// otherwise one that allows the methods `GET` and `POST` and the request
/// headers `authorization` and `content-type` from the origins that
/// [`cors_origins`] gives, whose `500` error it passes on.
pub fn cors_layer(config: &HostConfig) -> (r: Result<Option<CorsPolicy>, HostError>)
    ensures
        ({
            let o = strings_view(config.allowed_origins@);
            match r {
                Ok(None) => o.len() == 0,
                Ok(Some(p)) => {
                    &&& strings_view(p.methods@) == cors_methods()
                    &&& strings_view(p.headers@) == cors_headers()
                    &&& match p.origins {
                        CorsOrigins::Any => o.len() == 1 && o[0] == "*"@,
                        CorsOrigins::List(l) => {
                            &&& o.len() > 0
                            &&& !(o.len() == 1 && o[0] == "*"@)
                            &&& forall|i: int| 0 <= i < o.len() ==> header_value_ok(#[trigger] o[i])
                            &&& strings_view(l@) == o
                        },
                    }
                },
                Err(e) => {
                    &&& o.len() > 0
                    &&& !(o.len() == 1 && o[0] == "*"@)
                    &&& exists|k: int|
                        0 <= k < o.len() && !header_value_ok(o[k]) && (forall|j: int|
                            0 <= j < k ==> header_value_ok(#[trigger] o[j]))
                            && e.spec_status() == INTERNAL_SERVER_ERROR && e.spec_message()
                            == invalid_origin_message(#[trigger] o[k])
                },
            }
        }),
{
    match cors_origins(config) {
        Err(e) => Err(e),
        Ok(None) => Ok(None),
        Ok(Some(origins)) => {
            let methods = vec!["GET".to_owned(), "POST".to_owned()];
            let headers = vec!["authorization".to_owned(), "content-type".to_owned()];
            assert(strings_view(methods@) =~= cors_methods());
            assert(strings_view(headers@) =~= cors_headers());
            Ok(Some(CorsPolicy { origins, methods, headers }))
        },
    }
}

/// The message for an origin that is not a valid header value.
pub open spec fn invalid_origin_message(origin: Seq<char>) -> Seq<char> {
    "invalid allowed origin '"@ + origin + "': "@ + "failed to parse header value"@
}

/// The CORS origins a configuration allows: none configured means no CORS
/// layer, a lone `*` means any origin, and otherwise the list, provided every
/// origin is a valid header value; the first invalid one is a `500` error.
pub fn cors_origins(config: &HostConfig) -> (r: Result<Option<CorsOrigins>, HostError>)
    ensures
        ({
            let o = strings_view(config.allowed_origins@);
            match r {
                Ok(None) => o.len() == 0,
                Ok(Some(CorsOrigins::Any)) => o.len() == 1 && o[0] == "*"@,
                Ok(Some(CorsOrigins::List(l))) => {
                    &&& o.len() > 0
                    &&& !(o.len() == 1 && o[0] == "*"@)
                    &&& forall|i: int| 0 <= i < o.len() ==> header_value_ok(#[trigger] o[i])
                    &&& strings_view(l@) == o
                },
                Err(e) => {
                    &&& o.len() > 0
                    &&& !(o.len() == 1 && o[0] == "*"@)
                    &&& exists|k: int|
                        0 <= k < o.len() && !header_value_ok(o[k]) && (forall|j: int|
                            0 <= j < k ==> header_value_ok(#[trigger] o[j]))
                            && e.spec_status() == INTERNAL_SERVER_ERROR && e.spec_message()
                            == invalid_origin_message(#[trigger] o[k])
                },
            }
        }),
{
    let origins = &config.allowed_origins;
    let ghost o = strings_view(origins@);
    let n = origins.len();
    if n == 0 {
        return Ok(None);
    }
    if n == 1 && str_equal(origins[0].as_str(), "*") {
        return Ok(Some(CorsOrigins::Any));
    }
    let mut list: Vec<String> = Vec::new();
    let mut i: usize = 0;
    while i < n
        invariant
            n == origins@.len(),
            origins == &config.allowed_origins,
            o == strings_view(origins@),
            n > 0,
            !(n == 1 && o[0] == "*"@),
            i <= n,
            strings_view(list@) == o.take(i as int),
            forall|j: int| 0 <= j < i ==> header_value_ok(#[trigger] o[j]),
        decreases n - i,
    {
        let origin = origins[i].as_str();
        match header_value_error(origin) {
            Some(error) => {
                let mut message = "invalid allowed origin '".to_owned();
                message.append(origin);
                message.append("': ");
                message.append(error.as_str());
                let e = HostError::internal(message);
                assert(o[i as int] == origin@);
                assert(!header_value_ok(o[i as int]));
                assert(e.spec_message() == invalid_origin_message(o[i as int]));
                return Err(e);
            },
            None => {
                let ghost before = list@;
                let copy = origins[i].clone();
                assert(copy@ == o[i as int]);
                list.push(copy);
                assert(list@ == before.push(copy));
                assert(strings_view(list@) =~= strings_view(before).push(copy@));
                assert(strings_view(list@) =~= o.take(i + 1));
            },
        }
        i += 1;
    }
    assert(o.take(n as int) =~= o);
    Ok(Some(CorsOrigins::List(list)))
}

} // verus!
