//! Import of secrets from `otpauth://totp/...` URIs, one at a time or one per
//! line of a batch.
use crate::clock::seconds_since_epoch;
use crate::text::{
    chars_of, contains_chars, contains_seq, extend_chars, is_whitespace, parse_unsigned,
    spec_parse_unsigned, spec_to_lowercase, string_of, to_lowercase, trim, trim_chars,
};
use vstd::prelude::*;

verus! {

broadcast use vstd::string::group_string_axioms;

/// The parts of a URL that the import reads: scheme, host, path, and the
/// query as decoded key/value pairs in their order.
#[derive(Debug)]
pub struct UrlParts {
    pub scheme: String,
    pub host: Option<String>,
    pub path: String,
    pub query: Vec<(String, String)>,
}

/// The value of an optional string.
pub open spec fn opt_str(o: Option<String>) -> Option<Seq<char>> {
    match o {
        Some(s) => Some(s@),
        None => None,
    }
}

/// The value of a list of string pairs.
pub open spec fn pairs_view(q: Seq<(String, String)>) -> Seq<(Seq<char>, Seq<char>)> {
    q.map_values(|p: (String, String)| (p.0@, p.1@))
}

impl View for UrlParts {
    type V = (Seq<char>, Option<Seq<char>>, Seq<char>, Seq<(Seq<char>, Seq<char>)>);

    open spec fn view(&self) -> Self::V {
        (self.scheme@, opt_str(self.host), self.path@, pairs_view(self.query@))
    }
}

/// What `url::Url::parse` gives for this text, read through `scheme`,
/// `host_str`, `path` and `query_pairs`; or the text of the `ParseError`.
pub uninterp spec fn spec_url_parse(uri: Seq<char>) -> Result<
    (Seq<char>, Option<Seq<char>>, Seq<char>, Seq<(Seq<char>, Seq<char>)>),
    Seq<char>,
>;

/// `url::Url::parse` (WHATWG URL parsing), then `scheme`, `host_str`,
/// `path` and the decoded `query_pairs`. URL parsing takes a standard to
/// state; its result, and the text of its error, are only named here, as a
/// function of the input.
#[verifier::external_body]
fn parse_url(uri: &str) -> (r: Result<UrlParts, String>)
    ensures
        match r {
            Ok(p) => spec_url_parse(uri@) == Ok::<
                (Seq<char>, Option<Seq<char>>, Seq<char>, Seq<(Seq<char>, Seq<char>)>),
                Seq<char>,
            >(p@),
            Err(e) => spec_url_parse(uri@) == Err::<
                (Seq<char>, Option<Seq<char>>, Seq<char>, Seq<(Seq<char>, Seq<char>)>),
                Seq<char>,
            >(e@),
        },
{
    match url::Url::parse(uri) {
        Ok(u) => Ok(UrlParts {
            scheme: u.scheme().to_owned(),
            host: u.host_str().map(str::to_owned),
            path: u.path().to_owned(),
            query: u.query_pairs().into_owned().collect(),
        }),
        Err(e) => Err(e.to_string()),
    }
}

/// The value of a hexadecimal digit (`0`-`9`, `A`-`F`, `a`-`f`).
pub open spec fn hex_value(b: u8) -> Option<u8> {
    if 48 <= b <= 57 {
        Some((b - 48) as u8)
    } else if 65 <= b <= 70 {
        Some((b - 55) as u8)
    } else if 97 <= b <= 102 {
        Some((b - 87) as u8)
    } else {
        None
    }
}

/// The bytes of `s` with each `%` followed by two hex digits replaced by the
/// byte they write; every other byte, a `%` without two hex digits after it
/// among them, kept as it is.
pub open spec fn percent_bytes(s: Seq<u8>) -> Seq<u8>
    decreases s.len(),
{
    if s.len() == 0 {
        s
    } else if s.len() >= 3 && s[0] == 37 && hex_value(s[1]) is Some && hex_value(s[2]) is Some {
        seq![(hex_value(s[1])->Some_0 * 16 + hex_value(s[2])->Some_0) as u8] + percent_bytes(
            s.skip(3),
        )
    } else {
        seq![s[0]] + percent_bytes(s.skip(1))
    }
}

/// What `urlencoding::decode` gives for this text: its UTF-8 bytes
/// percent-decoded and read back as UTF-8, or `None` when they are not UTF-8.
pub open spec fn spec_percent_decode(s: Seq<char>) -> Option<Seq<char>> {
    let b = percent_bytes(vstd::utf8::encode_utf8(s));
    if vstd::utf8::valid_utf8(b) {
        Some(vstd::utf8::decode_utf8(b))
    } else {
        None
    }
}

/// `urlencoding::decode`: replaces each `%` and two hex digits by the byte
/// they write, keeps every other byte, and reads the bytes as UTF-8
/// (`String::from_utf8`); `None` stands for its `FromUtf8Error`. A text
/// without `%` comes back as it is, which the statement covers since its
/// bytes are valid UTF-8 that decodes to the text.
#[verifier::external_body]
fn percent_decode(s: &str) -> (r: Option<String>)
    ensures
        opt_str(r) == spec_percent_decode(s@),
{
    urlencoding::decode(s).ok().map(std::borrow::Cow::into_owned)
}

/// A secret read from an `otpauth://` URI.
#[derive(Debug, Clone)]
pub struct ParsedUri {
    pub alias: String,
    pub secret: String,
    pub algorithm: String,
    pub digits: u8,
    pub period: u32,
    pub created_at: u64,
}

/// The value of a [`ParsedUri`].
pub struct ParsedUriView {
    pub alias: Seq<char>,
    pub secret: Seq<char>,
    pub algorithm: Seq<char>,
    pub digits: u8,
    pub period: u32,
    pub created_at: u64,
}

impl View for ParsedUri {
    type V = ParsedUriView;

    open spec fn view(&self) -> ParsedUriView {
        ParsedUriView {
            alias: self.alias@,
            secret: self.secret@,
            algorithm: self.algorithm@,
            digits: self.digits,
            period: self.period,
            created_at: self.created_at,
        }
    }
}

/// The reader of `otpauth://` URIs.
pub struct OtpAuth;

/// `s` without its leading `c` characters (`str::trim_start_matches`).
pub open spec fn strip_leading(s: Seq<char>, c: char) -> Seq<char>
    decreases s.len(),
{
    if s.len() > 0 && s[0] == c {
        strip_leading(s.drop_first(), c)
    } else {
        s
    }
}

/// The value of the last query pair of key `key`, as a map collected from
/// the pairs keeps it.
pub open spec fn query_get(q: Seq<(Seq<char>, Seq<char>)>, key: Seq<char>) -> Option<Seq<char>>
    decreases q.len(),
{
    if q.len() == 0 {
        None
    } else if q.last().0 == key {
        Some(q.last().1)
    } else {
        query_get(q.drop_last(), key)
    }
}

/// A number parameter of the URI: its value when present and readable as an
/// integer no greater than `max`, `default` otherwise.
pub open spec fn number_param(v: Option<Seq<char>>, max: nat, default: nat) -> nat {
    match v {
        Some(s) => match spec_parse_unsigned(s) {
            Some(n) => if n <= max {
                n
            } else {
                default
            },
            None => default,
        },
        None => default,
    }
}

/// The alias of an imported secret: the label, prefixed by the issuer and a
/// `:` when there is an issuer that the label does not already hold.
pub open spec fn spec_alias(label: Seq<char>, issuer: Option<Seq<char>>) -> Seq<char> {
    match issuer {
        Some(iss) => if !contains_seq(label, iss) {
            iss + seq![':'] + label
        } else {
            label
        },
        None => label,
    }
}

/// What reading the parts of an `otpauth` URL gives, with `created_at` as the
/// creation time.
pub open spec fn spec_from_parts(
    p: (Seq<char>, Option<Seq<char>>, Seq<char>, Seq<(Seq<char>, Seq<char>)>),
    created_at: u64,
) -> Result<ParsedUriView, Seq<char>> {
    let (scheme, host, path, query) = p;
    if scheme != "otpauth"@ || host != Some("totp"@) {
        Err("Only 'otpauth://totp/...' URIs are supported"@)
    } else {
        let raw = strip_leading(path, '/');
        let label = match spec_percent_decode(raw) {
            Some(d) => d,
            None => raw,
        };
        match query_get(query, "secret"@) {
            None => Err("Missing mandatory 'secret' parameter in URI"@),
            Some(secret) => Ok(
                ParsedUriView {
                    alias: spec_alias(label, query_get(query, "issuer"@)),
                    secret: secret,
                    algorithm: spec_to_lowercase(
                        match query_get(query, "algorithm"@) {
                            Some(a) => a,
                            None => "sha1"@,
                        },
                    ),
                    digits: number_param(query_get(query, "digits"@), 255, 6) as u8,
                    period: number_param(query_get(query, "period"@), 0xffff_ffff, 30) as u32,
                    created_at: created_at,
                },
            ),
        }
    }
}

/// What reading the URI `uri` gives, with `created_at` as the creation time.
pub open spec fn spec_otpauth(uri: Seq<char>, created_at: u64) -> Result<ParsedUriView, Seq<char>> {
    match spec_url_parse(uri) {
        Err(m) => Err("Invalid URL: "@ + m),
        Ok(p) => spec_from_parts(p, created_at),
    }
}

/// Whether reading `uri` fails (whatever the time).
pub open spec fn uri_fails(uri: Seq<char>) -> bool {
    spec_otpauth(uri, 0) is Err
}

/// Whether reading a URI fails does not depend on the time, nor does the
/// error it gives.
pub proof fn lemma_failure_timeless(uri: Seq<char>, t: u64)
    ensures
        spec_otpauth(uri, t) is Err <==> uri_fails(uri),
        spec_otpauth(uri, t) is Err ==> spec_otpauth(uri, t) == spec_otpauth(uri, 0),
{
}

/// The lines of a batch that hold a URI: each line trimmed, blank ones left
/// out.
pub open spec fn nonblank_lines(lines: Seq<Seq<char>>) -> Seq<Seq<char>>
    decreases lines.len(),
{
    if lines.len() == 0 {
        Seq::empty()
    } else if trim(lines.last()).len() == 0 {
        nonblank_lines(lines.drop_last())
    } else {
        nonblank_lines(lines.drop_last()).push(trim(lines.last()))
    }
}

/// The position of the last pair of key `key`.
fn find_key(query: &Vec<(String, String)>, key: &str) -> (r: Option<usize>)
    ensures
        match r {
            Some(i) => i < query@.len() && query_get(pairs_view(query@), key@) == Some(
                query@[i as int].1@,
            ),
            None => query_get(pairs_view(query@), key@) is None,
        },
{
    let target = key.to_owned();
    let mut found: Option<usize> = None;
    let mut i: usize = 0;
    let ghost q = pairs_view(query@);
    assert(q.take(0) =~= Seq::<(Seq<char>, Seq<char>)>::empty());
    while i < query.len()
        invariant
            i <= query.len(),
            target@ == key@,
            q == pairs_view(query@),
            match found {
                Some(j) => j < i && query_get(q.take(i as int), key@) == Some(query@[j as int].1@),
                None => query_get(q.take(i as int), key@) is None,
            },
        decreases query.len() - i,
    {
        assert(q.take(i + 1).drop_last() =~= q.take(i as int));
        assert(q.take(i + 1).last() == (query@[i as int].0@, query@[i as int].1@));
        if query[i].0 == target {
            found = Some(i);
        }
        i = i + 1;
    }
    assert(q.take(query.len() as int) =~= q);
    found
}

/// Reads a number parameter, as `str::parse` for a type whose greatest value
/// is `max`, with `default` for a missing or unreadable value.
fn read_number(query: &Vec<(String, String)>, key: &str, max: u64, default: u64) -> (n: u64)
    ensures
        n == number_param(query_get(pairs_view(query@), key@), max as nat, default as nat),
{
    match find_key(query, key) {
        None => default,
        Some(i) => {
            let v = chars_of(query[i].1.as_str());
            match parse_unsigned(&v, max) {
                Some(x) => x,
                None => default,
            }
        },
    }
}

impl OtpAuth {
    /// Reads the parts of a parsed `otpauth` URL: checks the scheme and host,
    /// takes the alias from the label (decoded, prefixed by the issuer), the
    /// mandatory secret, and the algorithm, digits and period with their
    /// defaults.
    pub fn from_url_parts(parts: &UrlParts, created_at: u64) -> (r: Result<ParsedUri, String>)
        ensures
            match r {
                Ok(v) => spec_from_parts(parts@, created_at) == Ok::<ParsedUriView, Seq<char>>(
                    v@,
                ),
                Err(e) => spec_from_parts(parts@, created_at) == Err::<ParsedUriView, Seq<char>>(
                    e@,
                ),
            },
    {
        let is_totp = match &parts.host {
            Some(h) => parts.scheme == "otpauth".to_owned() && *h == "totp".to_owned(),
            None => false,
        };
        if !is_totp {
            return Err("Only 'otpauth://totp/...' URIs are supported".to_owned());
        }
        let path = chars_of(parts.path.as_str());
        let mut k: usize = 0;
        assert(path@.skip(0) =~= path@);
        while k < path.len() && path[k] == '/'
            invariant
                k <= path.len(),
                strip_leading(path@, '/') == strip_leading(path@.skip(k as int), '/'),
            decreases path.len() - k,
        {
            assert(path@.skip(k as int).drop_first() =~= path@.skip(k + 1));
            k = k + 1;
        }
        let raw_chars = crate::text::slice_chars(&path, k, path.len());
        assert(raw_chars@ =~= path@.skip(k as int));
        let raw = string_of(&raw_chars);
        let label = match percent_decode(raw.as_str()) {
            Some(d) => d,
            None => raw,
        };
        let secret = match find_key(&parts.query, "secret") {
            None => {
                return Err("Missing mandatory 'secret' parameter in URI".to_owned());
            },
            Some(i) => parts.query[i].1.clone(),
        };
        let alias = match find_key(&parts.query, "issuer") {
            Some(i) => {
                let iss = &parts.query[i].1;
                let label_chars = chars_of(label.as_str());
                let iss_chars = chars_of(iss.as_str());
                if !contains_chars(&label_chars, &iss_chars) {
                    let mut v = iss_chars;
                    v.push(':');
                    extend_chars(&mut v, label.as_str());
                    string_of(&v)
                } else {
                    label
                }
            },
            None => label,
        };
        let algorithm = match find_key(&parts.query, "algorithm") {
            Some(i) => to_lowercase(parts.query[i].1.as_str()),
            None => to_lowercase("sha1"),
        };
        let digits = read_number(&parts.query, "digits", 255, 6) as u8;
        let period = read_number(&parts.query, "period", 0xffff_ffff, 30) as u32;
        let r = ParsedUri { alias, secret, algorithm, digits, period, created_at };
        proof {
            let raw_v = strip_leading(path@, '/');
            assert(raw@ == raw_v);
            let label_v = match spec_percent_decode(raw_v) {
                Some(d) => d,
                None => raw_v,
            };
            assert(label@ == label_v);
            let q = pairs_view(parts.query@);
            assert(r.secret@ == query_get(q, "secret"@)->Some_0);
            assert(r.alias@ == spec_alias(label_v, query_get(q, "issuer"@)));
            assert(r.digits == number_param(query_get(q, "digits"@), 255, 6) as u8);
        }
        Ok(r)
    }

    /// Reads the `otpauth://totp/...` URI `uri`, created now.
    pub fn parse(uri: &str) -> (r: Result<ParsedUri, String>)
        ensures
            match r {
                Ok(v) => spec_otpauth(uri@, v.created_at) == Ok::<ParsedUriView, Seq<char>>(v@),
                Err(e) => forall|t: u64| #[trigger]
                    spec_otpauth(uri@, t) == Err::<ParsedUriView, Seq<char>>(e@),
            },
    {
        match parse_url(uri) {
            Err(e) => Err(crate::text::join2("Invalid URL: ", e.as_str())),
            Ok(parts) => {
                let created_at = match seconds_since_epoch() {
                    Some(t) => t,
                    None => 0,
                };
                Self::from_url_parts(&parts, created_at)
            },
        }
    }

    /// Reads every non-blank line of a batch as a URI, trimmed; all of them or
    /// the error of the first that fails.
    pub fn parse_batch_lines(lines: &Vec<String>) -> (r: Result<Vec<ParsedUri>, String>)
        ensures
            ({
                let nb = nonblank_lines(lines@.map_values(|l: String| l@));
                match r {
                    Ok(v) => {
                        &&& v@.len() == nb.len()
                        &&& forall|k: int|
                            0 <= k < nb.len() ==> spec_otpauth(nb[k], #[trigger] v@[k].created_at)
                                == Ok::<ParsedUriView, Seq<char>>(v@[k]@)
                    },
                    Err(e) => exists|k: int|
                        0 <= k < nb.len() && (forall|j: int| 0 <= j < k ==> !uri_fails(#[trigger] nb[j]))
                            && #[trigger] spec_otpauth(nb[k], 0) == Err::<ParsedUriView, Seq<char>>(
                            e@,
                        ),
                }
            }),
    {
        let ghost views = lines@.map_values(|l: String| l@);
        let mut out: Vec<ParsedUri> = Vec::new();
        let mut i: usize = 0;
        assert(views.take(0) =~= Seq::<Seq<char>>::empty());
        while i < lines.len()
            invariant
                i <= lines.len(),
                views == lines@.map_values(|l: String| l@),
                out@.len() == nonblank_lines(views.take(i as int)).len(),
                forall|k: int|
                    0 <= k < out@.len() ==> spec_otpauth(
                        nonblank_lines(views.take(i as int))[k],
                        #[trigger] out@[k].created_at,
                    ) == Ok::<ParsedUriView, Seq<char>>(out@[k]@),
            decreases lines.len() - i,
        {
            let ghost prev = nonblank_lines(views.take(i as int));
            assert(views.take(i + 1).drop_last() =~= views.take(i as int));
            assert(views.take(i + 1).last() == lines@[i as int]@);
            let line = chars_of(lines[i].as_str());
            let trimmed = trim_chars(&line);
            if trimmed.len() > 0 {
                let uri = string_of(&trimmed);
                match Self::parse(uri.as_str()) {
                    Ok(p) => {
                        out.push(p);
                    },
                    Err(e) => {
                        proof {
                            let nb = nonblank_lines(views);
                            lemma_nonblank_prefix(views, i as int + 1);
                            let k = prev.len() as int;
                            assert(nonblank_lines(views.take(i + 1)) == prev.push(trimmed@));
                            assert(nb[k] == trimmed@);
                            assert(spec_otpauth(trimmed@, 0) == Err::<ParsedUriView, Seq<char>>(e@));
                            assert forall|j: int| 0 <= j < k implies !uri_fails(#[trigger] nb[j]) by {
                                assert(nb[j] == prev[j]);
                                lemma_failure_timeless(prev[j], out@[j].created_at);
                            }
                        }
                        return Err(e);
                    },
                }
            }
            i = i + 1;
        }
        assert(views.take(lines.len() as int) =~= views);
        Ok(out)
    }
}

/// The non-blank lines of a prefix of a batch come first among those of the
/// whole batch.
pub proof fn lemma_nonblank_prefix(lines: Seq<Seq<char>>, n: int)
    requires
        0 <= n <= lines.len(),
    ensures
        nonblank_lines(lines.take(n)).len() <= nonblank_lines(lines).len(),
        forall|k: int|
            0 <= k < nonblank_lines(lines.take(n)).len() ==> #[trigger] nonblank_lines(lines)[k]
                == nonblank_lines(lines.take(n))[k],
    decreases lines.len() - n,
{
    if n < lines.len() {
        lemma_nonblank_prefix(lines, n + 1);
        assert(lines.take(n + 1).drop_last() =~= lines.take(n));
    } else {
        assert(lines.take(n) =~= lines);
    }
}

/// The label of an imported URI: the path without its leading `/`,
/// percent-decoded, or kept as it is when it does not decode.
pub open spec fn decoded_label(path: Seq<char>) -> Seq<char> {
    match spec_percent_decode(strip_leading(path, '/')) {
        Some(d) => d,
        None => strip_leading(path, '/'),
    }
}

/// `needle` occurs in `hay` at some position.
pub open spec fn occurs_in(hay: Seq<char>, needle: Seq<char>) -> bool {
    exists|i: int|
        0 <= i && i + needle.len() <= hay.len() && #[trigger] hay.subrange(i, i + needle.len())
            == needle
}

/// Importing, stated over the URL parts: it succeeds exactly for the scheme
/// `otpauth`, the host `totp` and a `secret` parameter; the secret is the last
/// `secret` value; the alias is the decoded label, prefixed by the issuer and
/// `:` exactly when an issuer is given that does not occur in the decoded
/// label.
pub proof fn lemma_import_alias(
    p: (Seq<char>, Option<Seq<char>>, Seq<char>, Seq<(Seq<char>, Seq<char>)>),
    t: u64,
)
    ensures
        spec_from_parts(p, t) is Ok <==> (p.0 == "otpauth"@ && p.1 == Some("totp"@) && query_get(
            p.3,
            "secret"@,
        ) is Some),
        spec_from_parts(p, t) is Ok ==> spec_from_parts(p, t)->Ok_0.secret == query_get(
            p.3,
            "secret"@,
        )->Some_0,
        spec_from_parts(p, t) is Ok ==> spec_from_parts(p, t)->Ok_0.created_at == t,
        spec_from_parts(p, t) is Ok && query_get(p.3, "issuer"@) is None ==> spec_from_parts(
            p,
            t,
        )->Ok_0.alias == decoded_label(p.2),
        spec_from_parts(p, t) is Ok && query_get(p.3, "issuer"@) is Some && occurs_in(
            decoded_label(p.2),
            query_get(p.3, "issuer"@)->Some_0,
        ) ==> spec_from_parts(p, t)->Ok_0.alias == decoded_label(p.2),
        spec_from_parts(p, t) is Ok && query_get(p.3, "issuer"@) is Some && !occurs_in(
            decoded_label(p.2),
            query_get(p.3, "issuer"@)->Some_0,
        ) ==> spec_from_parts(p, t)->Ok_0.alias == query_get(p.3, "issuer"@)->Some_0 + seq![':']
            + decoded_label(p.2),
{
    let label = decoded_label(p.2);
    if spec_from_parts(p, t) is Ok {
        let v = spec_from_parts(p, t)->Ok_0;
        assert(v.alias == spec_alias(label, query_get(p.3, "issuer"@)));
    }
    if query_get(p.3, "issuer"@) is Some {
        let iss = query_get(p.3, "issuer"@)->Some_0;
        if occurs_in(label, iss) {
            let i = choose|i: int|
                0 <= i && i + iss.len() <= label.len() && #[trigger] label.subrange(i, i + iss.len())
                    == iss;
            assert(crate::text::occurs_at(label, iss, i));
        }
        if contains_seq(label, iss) {
            let i = choose|i: int| crate::text::occurs_at(label, iss, i);
            assert(label.subrange(i, i + iss.len()) == iss);
        }
    }
}

} // verus!
