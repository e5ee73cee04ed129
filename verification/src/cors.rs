use vstd::prelude::*;
use vstd::slice::slice_to_vec;
use vstd::string::StrSliceExecFns;

use crate::headers::{
    ascii_text, header_value_accepts, is_header_value_byte, header_value_text, text_bytes, valid_header_bytes,
    visible_ascii_bytes,
};
use crate::text::{decimal, decimal_text, join_with, seq_join, texts};

verus! {

/// `access-control-allow-origin`
pub const ALLOW_ORIGIN: &'static str = "access-control-allow-origin";

/// `access-control-allow-credentials`
pub const ALLOW_CREDENTIALS: &'static str = "access-control-allow-credentials";

/// `access-control-allow-methods`
pub const ALLOW_METHODS: &'static str = "access-control-allow-methods";

/// `access-control-allow-headers`
pub const ALLOW_HEADERS: &'static str = "access-control-allow-headers";

/// `access-control-max-age`
pub const MAX_AGE: &'static str = "access-control-max-age";

/// `access-control-expose-headers`
pub const EXPOSE_HEADERS: &'static str = "access-control-expose-headers";

/// The wildcard origin.
pub const ANY: &'static str = "*";

/// The value that allows credentials.
pub const TRUE_TEXT: &'static str = "true";

/// The separator between listed methods and headers.
pub const LIST_SEPARATOR: &'static str = ", ";

/// The methods announced when the configured list cannot be a header value.
pub const FALLBACK_METHODS: &'static str = "GET, POST, OPTIONS";

/// The max age announced when the configured one cannot be a header value.
pub const FALLBACK_MAX_AGE: &'static str = "86400";

/// The parts of the CORS configuration that the trusted-origins handling reads.
pub struct CorsConfig {
    /// Origins that may send credentials.
    pub trusted_origins: Option<Vec<String>>,
    /// Whether any origin is allowed (the standard CORS mode's switch).
    pub allow_any_origin: bool,
    /// Methods announced to preflight requests.
    pub methods: Vec<String>,
    /// Headers announced to preflight requests that do not name their own.
    pub allow_headers: Vec<String>,
    /// Headers exposed to the browser on ordinary responses.
    pub expose_headers: Option<Vec<String>>,
    /// How long a preflight answer may be cached, in seconds.
    pub max_age_secs: Option<u64>,
}

/// One header to set on a response: its name and its raw value.
pub struct HeaderEntry {
    pub name: String,
    pub value: Vec<u8>,
}

impl View for HeaderEntry {
    type V = (Seq<char>, Seq<u8>);

    open spec fn view(&self) -> (Seq<char>, Seq<u8>) {
        (self.name@, self.value@)
    }
}

/// The views of a list of header entries, in order.
pub open spec fn entries_view(entries: Seq<HeaderEntry>) -> Seq<(Seq<char>, Seq<u8>)> {
    entries.map_values(|e: HeaderEntry| e@)
}

/// What the trusted-origins handling reads of an incoming request.
pub struct CorsRequest {
    /// Whether the method is `OPTIONS`.
    pub is_options: bool,
    /// The raw `origin` header, if present.
    pub origin: Option<Vec<u8>>,
    /// The raw `access-control-request-headers` header, if present.
    pub requested_headers: Option<Vec<u8>>,
}

/// Which CORS handling a configuration selects.
#[derive(Debug, Clone, Copy, PartialEq, Eq, Structural)]
pub enum CorsMode {
    /// Credentials only for trusted origins, `*` for everyone else.
    TrustedOrigins,
    /// The standard CORS layer.
    Standard,
}

/// Configuration errors for trusted origins.
#[derive(Debug, Clone, Copy, PartialEq, Eq, Structural)]
pub enum CorsConfigError {
    /// `trusted_origins` cannot be combined with `allow_any_origin`.
    TrustedOriginsWithAnyOrigin,
    /// `*` cannot be a trusted origin.
    WildcardTrustedOrigin,
}

/// The header value bytes that `HeaderValue::from_str(text)` gives, or those
/// of `fallback` where it refuses `text`.
pub open spec fn text_value(text: Seq<char>, fallback: Seq<char>) -> Seq<u8> {
    if valid_header_bytes(text_bytes(text)) {
        text_bytes(text)
    } else {
        text_bytes(fallback)
    }
}

/// Whether `origin` is one of the configured trusted origins.
pub open spec fn spec_is_trusted(config: CorsConfig, origin: Seq<char>) -> bool {
    match config.trusted_origins {
        Some(list) => texts(list@).contains(origin),
        None => false,
    }
}

/// Whether the configuration names at least one trusted origin.
pub open spec fn spec_has_trusted_origins(config: CorsConfig) -> bool {
    match config.trusted_origins {
        Some(list) => list@.len() > 0,
        None => false,
    }
}

/// The headers that say which origin is allowed, for an origin whose text is
/// readable: the origin itself with credentials when it is trusted, `*`
/// without credentials otherwise.
pub open spec fn preflight_origin_entries(config: CorsConfig, raw_origin: Seq<u8>) -> Seq<
    (Seq<char>, Seq<u8>),
> {
    if spec_is_trusted(config, ascii_text(raw_origin)) {
        seq![(ALLOW_ORIGIN@, raw_origin), (ALLOW_CREDENTIALS@, text_bytes(TRUE_TEXT@))]
    } else {
        seq![(ALLOW_ORIGIN@, text_bytes(ANY@))]
    }
}

/// The `access-control-allow-methods` header of a preflight answer.
pub open spec fn methods_entry(config: CorsConfig) -> (Seq<char>, Seq<u8>) {
    (ALLOW_METHODS@, text_value(seq_join(texts(config.methods@), LIST_SEPARATOR@), FALLBACK_METHODS@))
}

/// The `access-control-allow-headers` header of a preflight answer: the
/// request's own `access-control-request-headers` echoed when it has one,
/// else the configured list when one is configured, else none.
pub open spec fn allow_headers_entries(config: CorsConfig, requested: Option<Seq<u8>>) -> Seq<
    (Seq<char>, Seq<u8>),
> {
    match requested {
        Some(raw) => seq![(ALLOW_HEADERS@, raw)],
        None => if config.allow_headers@.len() > 0 {
            seq![
                (ALLOW_HEADERS@, text_value(seq_join(texts(config.allow_headers@), LIST_SEPARATOR@), ANY@)),
            ]
        } else {
            Seq::empty()
        },
    }
}

/// The `access-control-max-age` header of a preflight answer, if configured.
pub open spec fn max_age_entries(config: CorsConfig) -> Seq<(Seq<char>, Seq<u8>)> {
    match config.max_age_secs {
        Some(secs) => seq![(MAX_AGE@, text_value(decimal(secs as nat), FALLBACK_MAX_AGE@))],
        None => Seq::empty(),
    }
}

/// The raw requested-headers value of a request, as a sequence.
pub open spec fn requested_view(request: CorsRequest) -> Option<Seq<u8>> {
    match request.requested_headers {
        Some(raw) => Some(raw@),
        None => None,
    }
}

/// The answer to a preflight request: `None` unless the request is an
/// `OPTIONS` request whose `origin` header reads as text; otherwise the
/// headers of the answer, in the order they are set.
pub open spec fn preflight_plan(config: CorsConfig, request: CorsRequest) -> Option<
    Seq<(Seq<char>, Seq<u8>)>,
> {
    if !request.is_options {
        None
    } else {
        match request.origin {
            Some(raw) => if visible_ascii_bytes(raw@) {
                Some(
                    preflight_origin_entries(config, raw@) + seq![methods_entry(config)]
                        + allow_headers_entries(config, requested_view(request))
                        + max_age_entries(config),
                )
            } else {
                None
            },
            None => None,
        }
    }
}

/// The `access-control-expose-headers` header of an ordinary response, when
/// a non-empty list is configured and it can be a header value.
pub open spec fn expose_entries(config: CorsConfig) -> Seq<(Seq<char>, Seq<u8>)> {
    match config.expose_headers {
        Some(list) => {
            let joined = text_bytes(seq_join(texts(list@), LIST_SEPARATOR@));
            if list@.len() > 0 && valid_header_bytes(joined) {
                seq![(EXPOSE_HEADERS@, joined)]
            } else {
                Seq::empty()
            }
        },
        None => Seq::empty(),
    }
}

/// The headers added to an ordinary response, given the raw `origin` header
/// of its request.
pub open spec fn response_plan(config: CorsConfig, origin: Option<Seq<u8>>) -> Seq<
    (Seq<char>, Seq<u8>),
> {
    match origin {
        Some(raw) => if visible_ascii_bytes(raw) {
            let text = ascii_text(raw);
            if spec_is_trusted(config, text) {
                seq![
                    (ALLOW_ORIGIN@, text_value(text, ANY@)),
                    (ALLOW_CREDENTIALS@, text_bytes(TRUE_TEXT@)),
                ] + expose_entries(config)
            } else {
                seq![(ALLOW_ORIGIN@, text_bytes(ANY@))] + expose_entries(config)
            }
        } else {
            seq![(ALLOW_ORIGIN@, text_bytes(ANY@))]
        },
        None => seq![(ALLOW_ORIGIN@, text_bytes(ANY@))],
    }
}

/// The header value bytes of `text`, or of `fallback` if `text` cannot be one.
fn text_header_value(text: &str, fallback: &str) -> (value: Vec<u8>)
    ensures
        value@ == text_value(text@, fallback@),
{
    if header_value_accepts(text) {
        text.as_bytes_vec()
    } else {
        fallback.as_bytes_vec()
    }
}

fn header_entry(name: &str, value: Vec<u8>) -> (entry: HeaderEntry)
    ensures
        entry@ == (name@, value@),
{
    HeaderEntry { name: String::from_str(name), value }
}

impl CorsConfig {
    /// Whether at least one trusted origin is configured.
    pub fn has_trusted_origins(&self) -> (has: bool)
        ensures
            has == spec_has_trusted_origins(*self),
    {
        match &self.trusted_origins {
            Some(list) => list.len() > 0,
            None => false,
        }
    }

    /// The CORS handling that this configuration selects: trusted origins
    /// when any are configured, the standard layer otherwise.
    pub fn mode(&self) -> (mode: CorsMode)
        ensures
            mode == (if spec_has_trusted_origins(*self) {
                CorsMode::TrustedOrigins
            } else {
                CorsMode::Standard
            }),
    {
        if self.has_trusted_origins() {
            CorsMode::TrustedOrigins
        } else {
            CorsMode::Standard
        }
    }

    /// Refuses trusted origins combined with `allow_any_origin`, and `*` as a
    /// trusted origin.
    pub fn check_trusted_origins(&self) -> (checked: Result<(), CorsConfigError>)
        ensures
            checked == (if spec_has_trusted_origins(*self) && self.allow_any_origin {
                Err(CorsConfigError::TrustedOriginsWithAnyOrigin)
            } else if spec_is_trusted(*self, ANY@) {
                Err(CorsConfigError::WildcardTrustedOrigin)
            } else {
                Ok(())
            }),
    {
        if self.has_trusted_origins() && self.allow_any_origin {
            return Err(CorsConfigError::TrustedOriginsWithAnyOrigin);
        }
        if self.is_trusted(ANY) {
            return Err(CorsConfigError::WildcardTrustedOrigin);
        }
        Ok(())
    }

    /// Whether `origin` is one of the trusted origins.
    pub fn is_trusted(&self, origin: &str) -> (trusted: bool)
        ensures
            trusted == spec_is_trusted(*self, origin@),
    {
        match &self.trusted_origins {
            Some(list) => {
                let wanted = String::from_str(origin);
                let n = list.len();
                let mut i: usize = 0;
                while i < n
                    invariant
                        n == list.len(),
                        0 <= i <= n,
                        wanted@ == origin@,
                        self.trusted_origins == Some(*list),
                        forall|j: int| 0 <= j < i ==> list@[j]@ != origin@,
                    decreases n - i,
                {
                    if list[i] == wanted {
                        assert(list@[i as int]@ == origin@);
                        assert(texts(list@).len() == list@.len());
                        assert(texts(list@)[i as int] == origin@);
                        assert(texts(list@).contains(origin@));
                        return true;
                    }
                    i = i + 1;
                }
                assert(!texts(list@).contains(origin@)) by {
                    if texts(list@).contains(origin@) {
                        let k = choose|k: int| 0 <= k < texts(list@).len() && texts(list@)[k] == origin@;
                        assert(list@[k]@ == origin@);
                    }
                }
                false
            },
            None => false,
        }
    }
}

/// Appends `entry` to `entries`.
fn push_entry(entries: &mut Vec<HeaderEntry>, entry: HeaderEntry)
    ensures
        entries_view(final(entries)@) == entries_view(old(entries)@).push(entry@),
{
    let ghost before = entries@;
    entries.push(entry);
    assert(entries_view(entries@) =~= entries_view(before).push(entry@));
}

/// The decisions of the CORS handling for trusted origins.
pub struct TrustedOriginsCors {
    pub config: CorsConfig,
}

impl TrustedOriginsCors {
    /// Handling for `config`.
    pub fn new(config: CorsConfig) -> (cors: Self)
        ensures
            cors.config == config,
    {
        TrustedOriginsCors { config }
    }

    /// Whether `origin` is in the trusted list.
    pub fn is_trusted_origin(&self, origin: &str) -> (trusted: bool)
        ensures
            trusted == spec_is_trusted(self.config, origin@),
    {
        self.config.is_trusted(origin)
    }

    /// The answer to a preflight request: `None` when `request` is not an
    /// `OPTIONS` request with a readable `origin` header (it then goes on to
    /// the wrapped service), else the headers of the `200 OK` answer.
    pub fn preflight_headers(&self, request: &CorsRequest) -> (answer: Option<Vec<HeaderEntry>>)
        ensures
            match answer {
                Some(entries) => preflight_plan(self.config, *request) == Some(
                    entries_view(entries@),
                ),
                None => preflight_plan(self.config, *request) is None,
            },
    {
        if !request.is_options {
            return None;
        }
        let raw = match &request.origin {
            Some(raw) => raw,
            None => return None,
        };
        let origin_text = match header_value_text(raw.as_slice()) {
            Some(t) => t,
            None => return None,
        };
        let mut entries: Vec<HeaderEntry> = Vec::new();
        assert(entries_view(entries@) =~= Seq::<(Seq<char>, Seq<u8>)>::empty());
        if self.config.is_trusted(origin_text.as_str()) {
            push_entry(&mut entries, header_entry(ALLOW_ORIGIN, slice_to_vec(raw.as_slice())));
            push_entry(&mut entries, header_entry(ALLOW_CREDENTIALS, TRUE_TEXT.as_bytes_vec()));
        } else {
            push_entry(&mut entries, header_entry(ALLOW_ORIGIN, ANY.as_bytes_vec()));
        }
        let ghost origin_part = entries_view(entries@);
        assert(origin_part =~= preflight_origin_entries(self.config, raw@));

        let methods = join_with(&self.config.methods, LIST_SEPARATOR);
        push_entry(
            &mut entries,
            header_entry(ALLOW_METHODS, text_header_value(methods.as_str(), FALLBACK_METHODS)),
        );
        let ghost methods_part = entries_view(entries@);

        match &request.requested_headers {
            Some(requested) => {
                push_entry(
                    &mut entries,
                    header_entry(ALLOW_HEADERS, slice_to_vec(requested.as_slice())),
                );
            },
            None => {
                if self.config.allow_headers.len() > 0 {
                    let allowed = join_with(&self.config.allow_headers, LIST_SEPARATOR);
                    push_entry(
                        &mut entries,
                        header_entry(ALLOW_HEADERS, text_header_value(allowed.as_str(), ANY)),
                    );
                }
            },
        }
        assert(entries_view(entries@) =~= methods_part + allow_headers_entries(
            self.config,
            requested_view(*request),
        ));
        let ghost headers_part = entries_view(entries@);

        match self.config.max_age_secs {
            Some(secs) => {
                let age = decimal_text(secs);
                push_entry(
                    &mut entries,
                    header_entry(MAX_AGE, text_header_value(age.as_str(), FALLBACK_MAX_AGE)),
                );
            },
            None => {},
        }
        assert(entries_view(entries@) =~= headers_part + max_age_entries(self.config));
        Some(entries)
    }

    /// The headers to set on the wrapped service's response, given the raw
    /// `origin` header of the request.
    pub fn response_headers(&self, origin: &Option<Vec<u8>>) -> (entries: Vec<HeaderEntry>)
        ensures
            entries_view(entries@) == response_plan(
                self.config,
                match origin {
                    Some(raw) => Some(raw@),
                    None => None,
                },
            ),
    {
        let mut entries: Vec<HeaderEntry> = Vec::new();
        assert(entries_view(entries@) =~= Seq::<(Seq<char>, Seq<u8>)>::empty());
        let origin_text = match origin {
            Some(raw) => header_value_text(raw.as_slice()),
            None => None,
        };
        match origin_text {
            Some(text) => {
                if self.config.is_trusted(text.as_str()) {
                    push_entry(
                        &mut entries,
                        header_entry(ALLOW_ORIGIN, text_header_value(text.as_str(), ANY)),
                    );
                    push_entry(
                        &mut entries,
                        header_entry(ALLOW_CREDENTIALS, TRUE_TEXT.as_bytes_vec()),
                    );
                } else {
                    push_entry(&mut entries, header_entry(ALLOW_ORIGIN, ANY.as_bytes_vec()));
                }
                let ghost origin_part = entries_view(entries@);
                match &self.config.expose_headers {
                    Some(list) => {
                        if list.len() > 0 {
                            let joined = join_with(list, LIST_SEPARATOR);
                            if header_value_accepts(joined.as_str()) {
                                push_entry(
                                    &mut entries,
                                    header_entry(EXPOSE_HEADERS, joined.as_str().as_bytes_vec()),
                                );
                            }
                        }
                    },
                    None => {},
                }
                assert(entries_view(entries@) =~= origin_part + expose_entries(self.config));
            },
            None => {
                push_entry(&mut entries, header_entry(ALLOW_ORIGIN, ANY.as_bytes_vec()));
            },
        }
        entries
    }
}

/// Text made of visible ASCII characters is a valid header value.
proof fn lemma_printable_text_valid(text: Seq<char>)
    requires
        forall|i: int| 0 <= i < text.len() ==> ' ' <= #[trigger] text[i] <= '~',
    ensures
        valid_header_bytes(text_bytes(text)),
{
    assert(vstd::utf8::is_ascii_chars(text));
    vstd::utf8::is_ascii_chars_encode_utf8(text);
    assert forall|i: int| 0 <= i < text_bytes(text).len() implies #[trigger] is_header_value_byte(
        text_bytes(text)[i],
    ) by {
        let c = text[i];
        assert(' ' <= c <= '~');
        assert(text_bytes(text)[i] == c as u8);
    }
}

/// The fixed texts that the handling may send are valid header values.
proof fn lemma_fixed_values_valid()
    ensures
        valid_header_bytes(text_bytes(ANY@)),
        valid_header_bytes(text_bytes(TRUE_TEXT@)),
        valid_header_bytes(text_bytes(FALLBACK_METHODS@)),
        valid_header_bytes(text_bytes(FALLBACK_MAX_AGE@)),
{
    reveal_strlit("*");
    reveal_strlit("true");
    reveal_strlit("GET, POST, OPTIONS");
    reveal_strlit("86400");
    lemma_printable_text_valid(ANY@);
    lemma_printable_text_valid(TRUE_TEXT@);
    lemma_printable_text_valid(FALLBACK_METHODS@);
    lemma_printable_text_valid(FALLBACK_MAX_AGE@);
}

/// Every header value of a preflight answer is a valid HTTP header value,
/// provided the request's `access-control-request-headers` value was one.
pub proof fn law_preflight_values_valid(config: CorsConfig, request: CorsRequest)
    requires
        preflight_plan(config, request) is Some,
        request.requested_headers matches Some(raw) ==> valid_header_bytes(raw@),
    ensures
        forall|i: int|
            0 <= i < preflight_plan(config, request)->0.len() ==> valid_header_bytes(
                #[trigger] preflight_plan(config, request)->0[i].1,
            ),
{
    lemma_fixed_values_valid();
    let raw = request.origin->0@;
    assert(valid_header_bytes(raw)) by {
        assert forall|i: int| 0 <= i < raw.len() implies #[trigger] is_header_value_byte(raw[i]) by {
            assert(crate::headers::is_visible_ascii_byte(raw[i]));
        }
    }
    let entries = preflight_plan(config, request)->0;
    let first = preflight_origin_entries(config, raw);
    let second = first + seq![methods_entry(config)];
    let third = second + allow_headers_entries(config, requested_view(request));
    assert(entries == third + max_age_entries(config));
    assert forall|i: int| 0 <= i < entries.len() implies valid_header_bytes(#[trigger] entries[i].1) by {
        if i < first.len() {
            assert(entries[i] == first[i]);
        } else if i < second.len() {
            assert(entries[i] == second[i]);
        } else if i < third.len() {
            assert(entries[i] == third[i]);
            assert(entries[i] == allow_headers_entries(config, requested_view(request))[i - second.len()]);
        } else {
            assert(entries[i] == max_age_entries(config)[i - third.len()]);
        }
    }
}

/// Every header value added to an ordinary response is a valid HTTP header
/// value.
pub proof fn law_response_values_valid(config: CorsConfig, origin: Option<Seq<u8>>)
    ensures
        forall|i: int|
            0 <= i < response_plan(config, origin).len() ==> valid_header_bytes(
                #[trigger] response_plan(config, origin)[i].1,
            ),
{
    lemma_fixed_values_valid();
    let entries = response_plan(config, origin);
    assert forall|i: int| 0 <= i < entries.len() implies valid_header_bytes(#[trigger] entries[i].1) by {
        match origin {
            Some(raw) => if visible_ascii_bytes(raw) {
                let text = ascii_text(raw);
                let head = if spec_is_trusted(config, text) {
                    seq![
                        (ALLOW_ORIGIN@, text_value(text, ANY@)),
                        (ALLOW_CREDENTIALS@, text_bytes(TRUE_TEXT@)),
                    ]
                } else {
                    seq![(ALLOW_ORIGIN@, text_bytes(ANY@))]
                };
                assert(entries == head + expose_entries(config));
                if i >= head.len() {
                    assert(entries[i] == expose_entries(config)[i - head.len()]);
                }
            },
            None => {},
        }
    }
}

/// The lengths of the header names, which tell most of them apart.
proof fn lemma_header_names()
    ensures
        ALLOW_ORIGIN@.len() == 27,
        ALLOW_CREDENTIALS@.len() == 32,
        ALLOW_METHODS@.len() == 28,
        ALLOW_HEADERS@.len() == 28,
        MAX_AGE@.len() == 22,
        EXPOSE_HEADERS@.len() == 29,
        ALLOW_METHODS@ != ALLOW_HEADERS@,
{
    reveal_strlit("access-control-allow-origin");
    reveal_strlit("access-control-allow-credentials");
    reveal_strlit("access-control-allow-methods");
    reveal_strlit("access-control-allow-headers");
    reveal_strlit("access-control-max-age");
    reveal_strlit("access-control-expose-headers");
    assert(ALLOW_METHODS@[21] != ALLOW_HEADERS@[21]);
}

/// Credentials are offered to trusted origins alone. A preflight answer
/// starts with `access-control-allow-origin`, which echoes the origin when it
/// is trusted and is `*` otherwise, and it carries
/// `access-control-allow-credentials: true` exactly when the origin is
/// trusted.
pub proof fn law_preflight_credentials_only_for_trusted(config: CorsConfig, request: CorsRequest)
    requires
        preflight_plan(config, request) is Some,
    ensures
        ({
            let entries = preflight_plan(config, request)->0;
            let raw = request.origin->0@;
            let trusted = spec_is_trusted(config, ascii_text(raw));
            &&& entries[0] == (ALLOW_ORIGIN@, if trusted {
                raw
            } else {
                text_bytes(ANY@)
            })
            &&& trusted <==> exists|i: int|
                0 <= i < entries.len() && #[trigger] entries[i].0 == ALLOW_CREDENTIALS@
            &&& forall|i: int|
                0 <= i < entries.len() && #[trigger] entries[i].0 == ALLOW_CREDENTIALS@
                    ==> entries[i].1 == text_bytes(TRUE_TEXT@)
        }),
{
    lemma_header_names();
    let raw = request.origin->0@;
    let entries = preflight_plan(config, request)->0;
    let trusted = spec_is_trusted(config, ascii_text(raw));
    let first = preflight_origin_entries(config, raw);
    let rest = seq![methods_entry(config)] + allow_headers_entries(config, requested_view(request))
        + max_age_entries(config);
    assert(entries =~= first + rest);
    assert forall|i: int| 0 <= i < rest.len() implies #[trigger] rest[i].0 != ALLOW_CREDENTIALS@ by {
        let a = seq![methods_entry(config)];
        let b = allow_headers_entries(config, requested_view(request));
        if i < 1 {
            assert(rest[i] == a[i]);
        } else if i < 1 + b.len() {
            assert(rest[i] == b[i - 1]);
        } else {
            assert(rest[i] == max_age_entries(config)[i - 1 - b.len()]);
        }
    }
    if trusted {
        assert(entries[1].0 == ALLOW_CREDENTIALS@);
    }
    assert forall|i: int|
        0 <= i < entries.len() && #[trigger] entries[i].0 == ALLOW_CREDENTIALS@ implies trusted
            && entries[i].1 == text_bytes(TRUE_TEXT@) by {
        if i >= first.len() {
            assert(entries[i] == rest[i - first.len()]);
        }
    }
}

/// Credentials are offered to trusted origins alone. Every ordinary response
/// gets `access-control-allow-origin` first: the origin when it reads as text
/// and is trusted, `*` otherwise; `access-control-allow-credentials: true`
/// is added exactly when the origin is trusted.
pub proof fn law_response_credentials_only_for_trusted(config: CorsConfig, origin: Option<Seq<u8>>)
    ensures
        ({
            let entries = response_plan(config, origin);
            let trusted = match origin {
                Some(raw) => visible_ascii_bytes(raw) && spec_is_trusted(config, ascii_text(raw)),
                None => false,
            };
            &&& entries.len() > 0
            &&& entries[0] == (ALLOW_ORIGIN@, if trusted {
                text_value(ascii_text(origin->0), ANY@)
            } else {
                text_bytes(ANY@)
            })
            &&& trusted <==> exists|i: int|
                0 <= i < entries.len() && #[trigger] entries[i].0 == ALLOW_CREDENTIALS@
            &&& forall|i: int|
                0 <= i < entries.len() && #[trigger] entries[i].0 == ALLOW_CREDENTIALS@
                    ==> entries[i].1 == text_bytes(TRUE_TEXT@)
        }),
{
    lemma_header_names();
    let entries = response_plan(config, origin);
    let expose = expose_entries(config);
    assert forall|i: int| 0 <= i < expose.len() implies #[trigger] expose[i].0 != ALLOW_CREDENTIALS@ by {}
    match origin {
        Some(raw) => if visible_ascii_bytes(raw) {
            let text = ascii_text(raw);
            if spec_is_trusted(config, text) {
                let head = seq![
                    (ALLOW_ORIGIN@, text_value(text, ANY@)),
                    (ALLOW_CREDENTIALS@, text_bytes(TRUE_TEXT@)),
                ];
                assert(entries == head + expose);
                assert(entries[1].0 == ALLOW_CREDENTIALS@);
                assert forall|i: int|
                    0 <= i < entries.len() && #[trigger] entries[i].0 == ALLOW_CREDENTIALS@ implies entries[i].1
                        == text_bytes(TRUE_TEXT@) by {
                    if i >= 2 {
                        assert(entries[i] == expose[i - 2]);
                    }
                }
            } else {
                let head = seq![(ALLOW_ORIGIN@, text_bytes(ANY@))];
                assert(entries == head + expose);
                assert forall|i: int| 0 <= i < entries.len() implies #[trigger] entries[i].0
                    != ALLOW_CREDENTIALS@ by {
                    if i >= 1 {
                        assert(entries[i] == expose[i - 1]);
                    }
                }
            }
        },
        None => {},
    }
}

/// No two entries of `entries` name the same header.
pub open spec fn names_distinct(entries: Seq<(Seq<char>, Seq<u8>)>) -> bool {
    forall|i: int, j: int|
        0 <= i < j < entries.len() ==> #[trigger] entries[i].0 != #[trigger] entries[j].0
}

/// A preflight answer sets each header once, so setting its entries in order
/// on an empty header map keeps every one of them.
pub proof fn law_preflight_names_distinct(config: CorsConfig, request: CorsRequest)
    requires
        preflight_plan(config, request) is Some,
    ensures
        names_distinct(preflight_plan(config, request)->0),
{
    lemma_header_names();
    let entries = preflight_plan(config, request)->0;
    let a = preflight_origin_entries(config, request.origin->0@);
    let m = seq![methods_entry(config)];
    let b = allow_headers_entries(config, requested_view(request));
    let c = max_age_entries(config);
    assert(entries == a + m + b + c);
    assert(a.len() == 1 || a.len() == 2);
    assert(a[0].0 == ALLOW_ORIGIN@);
    assert(a.len() == 2 ==> a[1].0 == ALLOW_CREDENTIALS@);
    assert(b.len() <= 1);
    assert(b.len() == 1 ==> b[0].0 == ALLOW_HEADERS@);
    assert(c.len() <= 1);
    assert(c.len() == 1 ==> c[0].0 == MAX_AGE@);
    assert forall|i: int, j: int|
        0 <= i < j < entries.len() implies #[trigger] entries[i].0 != #[trigger] entries[j].0 by {
        let k1 = a.len() as int;
        let k2 = k1 + 1;
        let k3 = k2 + b.len();
        if j < k1 {
            assert(entries[i] == a[i] && entries[j] == a[j]);
        } else if j < k2 {
            assert(entries[j] == m[0]);
            assert(entries[i] == a[i]);
        } else if j < k3 {
            assert(entries[j] == b[0]);
            if i < k1 {
                assert(entries[i] == a[i]);
            } else {
                assert(entries[i] == m[0]);
            }
        } else {
            assert(entries[j] == c[0]);
            if i < k1 {
                assert(entries[i] == a[i]);
            } else if i < k2 {
                assert(entries[i] == m[0]);
            } else {
                assert(entries[i] == b[0]);
            }
        }
    }
}

/// The headers added to an ordinary response are each set once.
pub proof fn law_response_names_distinct(config: CorsConfig, origin: Option<Seq<u8>>)
    ensures
        names_distinct(response_plan(config, origin)),
{
    lemma_header_names();
    let entries = response_plan(config, origin);
    let e = expose_entries(config);
    assert(e.len() <= 1);
    assert(e.len() == 1 ==> e[0].0 == EXPOSE_HEADERS@);
    match origin {
        Some(raw) => if visible_ascii_bytes(raw) {
            let text = ascii_text(raw);
            if spec_is_trusted(config, text) {
                let head = seq![
                    (ALLOW_ORIGIN@, text_value(text, ANY@)),
                    (ALLOW_CREDENTIALS@, text_bytes(TRUE_TEXT@)),
                ];
                assert(entries == head + e);
                assert forall|i: int, j: int|
                    0 <= i < j < entries.len() implies #[trigger] entries[i].0
                        != #[trigger] entries[j].0 by {
                    if j >= 2 {
                        assert(entries[j] == e[0]);
                    }
                }
            } else {
                let head = seq![(ALLOW_ORIGIN@, text_bytes(ANY@))];
                assert(entries == head + e);
                assert forall|i: int, j: int|
                    0 <= i < j < entries.len() implies #[trigger] entries[i].0
                        != #[trigger] entries[j].0 by {
                    assert(entries[j] == e[0]);
                }
            }
        },
        None => {},
    }
}

/// Trust is membership: every configured trusted origin, at whatever
/// position of the list, is trusted, and an origin that is trusted equals one
/// of them. Without a list nothing is trusted.
pub proof fn law_trusted_is_membership(config: CorsConfig, origin: Seq<char>)
    ensures
        config.trusted_origins matches Some(list) ==> forall|k: int|
            0 <= k < list@.len() ==> spec_is_trusted(config, #[trigger] list@[k]@),
        spec_is_trusted(config, origin) ==> (config.trusted_origins matches Some(list) && exists|k: int|
            0 <= k < list@.len() && #[trigger] list@[k]@ == origin),
        config.trusted_origins is None ==> !spec_is_trusted(config, origin),
{
    match config.trusted_origins {
        Some(list) => {
            assert forall|k: int| 0 <= k < list@.len() implies spec_is_trusted(
                config,
                #[trigger] list@[k]@,
            ) by {
                assert(texts(list@)[k] == list@[k]@);
            }
            if spec_is_trusted(config, origin) {
                let k = choose|k: int| 0 <= k < texts(list@).len() && texts(list@)[k] == origin;
                assert(list@[k]@ == origin);
            }
        },
        None => {},
    }
}

/// The trusted-origins handling is selected exactly when some origin is
/// trusted: a configuration with any trusted origin in its list, however
/// many, selects it, and one where no origin is trusted selects the standard
/// layer.
pub proof fn law_mode_follows_trust(config: CorsConfig)
    ensures
        spec_has_trusted_origins(config) <==> exists|o: Seq<char>| #[trigger]
            spec_is_trusted(config, o),
{
    law_trusted_is_membership(config, Seq::empty());
    match config.trusted_origins {
        Some(list) => {
            if list@.len() > 0 {
                law_trusted_is_membership(config, list@[0]@);
                assert(spec_is_trusted(config, list@[0]@));
            }
            if exists|o: Seq<char>| #[trigger] spec_is_trusted(config, o) {
                let o = choose|o: Seq<char>| #[trigger] spec_is_trusted(config, o);
                law_trusted_is_membership(config, o);
            }
        },
        None => {
            if exists|o: Seq<char>| #[trigger] spec_is_trusted(config, o) {
                let o = choose|o: Seq<char>| #[trigger] spec_is_trusted(config, o);
                law_trusted_is_membership(config, o);
            }
        },
    }
}

/// A preflight answer carries exactly one `access-control-allow-methods`
/// header, whose value is the configured methods joined with `", "` whenever
/// that text is a valid header value, and `GET, POST, OPTIONS` only when it
/// is not.
pub proof fn law_preflight_methods(config: CorsConfig, request: CorsRequest)
    requires
        preflight_plan(config, request) is Some,
    ensures
        ({
            let entries = preflight_plan(config, request)->0;
            let joined = text_bytes(seq_join(texts(config.methods@), ", "@));
            exists|i: int|
                0 <= i < entries.len() && #[trigger] entries[i].0 == ALLOW_METHODS@ && entries[i].1
                    == (if valid_header_bytes(joined) {
                    joined
                } else {
                    text_bytes("GET, POST, OPTIONS"@)
                }) && forall|j: int|
                    0 <= j < entries.len() && j != i ==> #[trigger] entries[j].0 != ALLOW_METHODS@
        }),
{
    reveal_strlit(", ");
    reveal_strlit("GET, POST, OPTIONS");
    assert(LIST_SEPARATOR@ == ", "@) by { reveal_strlit(", "); }
    assert(FALLBACK_METHODS@ == "GET, POST, OPTIONS"@) by { reveal_strlit("GET, POST, OPTIONS"); }
    lemma_header_names();
    law_preflight_names_distinct(config, request);
    let entries = preflight_plan(config, request)->0;
    let a = preflight_origin_entries(config, request.origin->0@);
    let m = seq![methods_entry(config)];
    let b = allow_headers_entries(config, requested_view(request));
    let c = max_age_entries(config);
    assert(entries == a + m + b + c);
    let i = a.len() as int;
    assert(entries[i] == methods_entry(config));
    assert forall|j: int| 0 <= j < entries.len() && j != i implies #[trigger] entries[j].0
        != ALLOW_METHODS@ by {
        if j < i {
            assert(entries[j].0 != entries[i].0);
        } else {
            assert(entries[i].0 != entries[j].0);
        }
    }
    let joined = text_bytes(seq_join(texts(config.methods@), ", "@));
    assert(entries[i].1 == (if valid_header_bytes(joined) {
        joined
    } else {
        text_bytes("GET, POST, OPTIONS"@)
    }));
    assert(0 <= i < entries.len() && entries[i].0 == ALLOW_METHODS@);
}

/// Exposed headers do not depend on trust: for any origin that reads as
/// text, trusted or not, the response carries one
/// `access-control-expose-headers` header, last, whose value is the whole
/// configured list joined with `", "`, when that list is non-empty and its
/// join is a valid header value, and no such header otherwise.
pub proof fn law_response_exposes_whole_list(config: CorsConfig, raw: Seq<u8>)
    requires
        visible_ascii_bytes(raw),
    ensures
        ({
            let entries = response_plan(config, Some(raw));
            let exposed = match config.expose_headers {
                Some(list) => list@.len() > 0 && valid_header_bytes(
                    text_bytes(seq_join(texts(list@), ", "@)),
                ),
                None => false,
            };
            &&& exposed ==> entries.last() == (
                EXPOSE_HEADERS@,
                text_bytes(seq_join(texts(config.expose_headers->0@), ", "@)),
            )
            &&& exposed ==> forall|j: int|
                0 <= j < entries.len() - 1 ==> #[trigger] entries[j].0 != EXPOSE_HEADERS@
            &&& !exposed ==> forall|j: int|
                0 <= j < entries.len() ==> #[trigger] entries[j].0 != EXPOSE_HEADERS@
        }),
{
    assert(LIST_SEPARATOR@ == ", "@) by { reveal_strlit(", "); }
    lemma_header_names();
    let entries = response_plan(config, Some(raw));
    let text = ascii_text(raw);
    let e = expose_entries(config);
    let head = if spec_is_trusted(config, text) {
        seq![(ALLOW_ORIGIN@, text_value(text, ANY@)), (ALLOW_CREDENTIALS@, text_bytes(TRUE_TEXT@))]
    } else {
        seq![(ALLOW_ORIGIN@, text_bytes(ANY@))]
    };
    assert(entries == head + e);
    assert forall|j: int| 0 <= j < head.len() implies #[trigger] head[j].0 != EXPOSE_HEADERS@ by {}
    assert forall|j: int| 0 <= j < entries.len() && j < head.len() implies #[trigger] entries[j].0
        != EXPOSE_HEADERS@ by {
        assert(entries[j] == head[j]);
    }
}

} // verus!
