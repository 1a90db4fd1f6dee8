//! Which key a search goes by, and the tokens that it gets for it.
use crate::credentials;
use crate::error::{FastContextError, Fault};
use crate::json::{self, Json, Tree};
use crate::protobuf::{self, ProtobufEncoder};
use crate::protocol;
use crate::text;
use crate::types::{AuthCheck, DEFAULT_WS_APP_VER, DEFAULT_WS_LS_VER, WS_APP};
use vstd::prelude::*;

verus! {

/// Where a key can come from: passed, set, saved in the config file, or found
/// in the database.
#[derive(Debug, Clone, PartialEq, Eq)]
pub struct KeySources {
    pub passed: Option<String>,
    pub environment: Option<String>,
    pub cached: Option<String>,
    pub discovered: Option<String>,
    pub config_path: String,
}

/// Which source a key was taken from.
#[derive(Debug, Clone, Copy, PartialEq, Eq, Structural)]
pub enum KeyOrigin {
    Passed,
    InPlaceOfPassed,
    Environment,
    InPlaceOfEnvironment,
    Cached,
    Discovered,
}

/// The key that is used, and where it came from.
#[derive(Debug, Clone, PartialEq, Eq)]
pub struct ChosenKey {
    pub key: String,
    pub origin: KeyOrigin,
}

/// The key that is used, and where it came from.
pub open spec fn chosen(sources: KeySources) -> Option<(Seq<char>, KeyOrigin)> {
    match sources.passed {
        Some(key) => match sources.discovered {
            Some(found) if credentials::is_cut_off(key@) => Some(
                (found@, KeyOrigin::InPlaceOfPassed),
            ),
            _ => Some((key@, KeyOrigin::Passed)),
        },
        None => match sources.environment {
            Some(key) => match sources.discovered {
                Some(found) if credentials::is_cut_off(key@) => Some(
                    (found@, KeyOrigin::InPlaceOfEnvironment),
                ),
                _ => Some((key@, KeyOrigin::Environment)),
            },
            None => match sources.cached {
                Some(key) => Some((key@, KeyOrigin::Cached)),
                None => match sources.discovered {
                    Some(key) => Some((key@, KeyOrigin::Discovered)),
                    None => None,
                },
            },
        },
    }
}

/// Whether the key depends on what the database holds.
pub open spec fn asks_database(
    passed: Option<Seq<char>>,
    set: Option<Seq<char>>,
    cached: Option<Seq<char>>,
) -> bool {
    match (passed, set) {
        (Some(key), _) => credentials::is_cut_off(key),
        (None, Some(key)) => credentials::is_cut_off(key),
        (None, None) => cached is None,
    }
}

/// Whether the key depends on what the database holds.
pub fn needs_discovered_key(passed: Option<&str>, set: Option<&str>, cached: Option<&str>) -> (r:
    bool)
    ensures
        r == asks_database(
            text::opt_str_view(passed),
            text::opt_str_view(set),
            text::opt_str_view(cached),
        ),
{
    match (passed, set) {
        (Some(key), _) => credentials::looks_truncated_api_key(key),
        (None, Some(key)) => credentials::looks_truncated_api_key(key),
        (None, None) => cached.is_none(),
    }
}

/// Keys are taken in order: one that is passed, one that is set, one in the config
/// file, one in the database. There is none only where no source has one.
pub proof fn law_keys_are_taken_in_order(sources: KeySources)
    ensures
        sources.passed matches Some(key) ==> (!credentials::is_cut_off(key@) ==> chosen(sources)
            == Some((key@, KeyOrigin::Passed))),
        sources.passed is None ==> (sources.environment matches Some(key) ==> (
        !credentials::is_cut_off(key@) ==> chosen(sources) == Some(
            (key@, KeyOrigin::Environment),
        ))),
        sources.passed is None && sources.environment is None ==> (sources.cached matches Some(key)
            ==> chosen(sources) == Some((key@, KeyOrigin::Cached))),
        sources.passed is None && sources.environment is None && sources.cached is None ==> (
        sources.discovered matches Some(key) ==> chosen(sources) == Some(
            (key@, KeyOrigin::Discovered),
        )),
        chosen(sources) is None <==> sources.passed is None && sources.environment is None
            && sources.cached is None && sources.discovered is None,
{
}

/// What the database holds matters only where the key depends on it.
pub proof fn law_database_is_asked_where_it_matters(a: KeySources, b: KeySources)
    requires
        a.passed == b.passed,
        a.environment == b.environment,
        a.cached == b.cached,
        !asks_database(
            text::opt_view(a.passed),
            text::opt_view(a.environment),
            text::opt_view(a.cached),
        ),
    ensures
        chosen(a) == chosen(b),
{
}

/// What is said where there is no key.
pub open spec fn no_key_text(config_path: Seq<char>) -> Seq<char> {
    "Windsurf API Key not found. Set WINDSURF_API_KEY env var, ensure Windsurf is logged in, or write it to config file: "@
        + config_path
}

/// The key that is used: the one that is passed, else the one that is set, else
/// the one in the config file, else the one in the database. In place of one that
/// is cut off the database's is used, where it has one.
pub fn get_api_key(sources: &KeySources) -> (r: Result<ChosenKey, String>)
    ensures
        match r {
            Ok(found) => chosen(*sources) == Some((found.key@, found.origin)),
            Err(message) => chosen(*sources) is None && message@ == no_key_text(
                sources.config_path@,
            ),
        },
{
    if let Some(key) = &sources.passed {
        if credentials::looks_truncated_api_key(key) {
            if let Some(found) = &sources.discovered {
                return Ok(ChosenKey { key: found.clone(), origin: KeyOrigin::InPlaceOfPassed });
            }
        }
        return Ok(ChosenKey { key: key.clone(), origin: KeyOrigin::Passed });
    }
    if let Some(key) = &sources.environment {
        if credentials::looks_truncated_api_key(key) {
            if let Some(found) = &sources.discovered {
                return Ok(ChosenKey { key: found.clone(), origin: KeyOrigin::InPlaceOfEnvironment });
            }
        }
        return Ok(ChosenKey { key: key.clone(), origin: KeyOrigin::Environment });
    }
    if let Some(key) = &sources.cached {
        return Ok(ChosenKey { key: key.clone(), origin: KeyOrigin::Cached });
    }
    if let Some(key) = &sources.discovered {
        return Ok(ChosenKey { key: key.clone(), origin: KeyOrigin::Discovered });
    }
    let mut message = text::copied(
        "Windsurf API Key not found. Set WINDSURF_API_KEY env var, ensure Windsurf is logged in, or write it to config file: ",
    );
    message.append(&sources.config_path);
    Err(message)
}

/// What is shown of a key's origin.
pub open spec fn origin_notice(origin: KeyOrigin) -> Option<Seq<char>> {
    match origin {
        KeyOrigin::InPlaceOfPassed => Some(
            "[swegrep-cli] Passed API key looks truncated; using key discovered from Windsurf"@,
        ),
        KeyOrigin::InPlaceOfEnvironment => Some(
            "[swegrep-cli] WINDSURF_API_KEY looks truncated; using key discovered from Windsurf"@,
        ),
        KeyOrigin::Cached => Some("[swegrep-cli] Using cached API key from config"@),
        _ => None,
    }
}

/// What is shown of a key's origin.
pub fn describe_origin(origin: KeyOrigin) -> (r: Option<&'static str>)
    ensures
        text::opt_str_view(r) == origin_notice(origin),
{
    match origin {
        KeyOrigin::InPlaceOfPassed => Some(
            "[swegrep-cli] Passed API key looks truncated; using key discovered from Windsurf",
        ),
        KeyOrigin::InPlaceOfEnvironment => Some(
            "[swegrep-cli] WINDSURF_API_KEY looks truncated; using key discovered from Windsurf",
        ),
        KeyOrigin::Cached => Some("[swegrep-cli] Using cached API key from config"),
        _ => None,
    }
}

/// Whether a key is saved to the config file: one that was found in the
/// database for want of any other, where that is wanted.
pub fn should_save(origin: KeyOrigin, save_discovered: bool) -> (r: bool)
    ensures
        r == (save_discovered && origin == KeyOrigin::Discovered),
{
    save_discovered && match origin {
        KeyOrigin::Discovered => true,
        _ => false,
    }
}

/// A value that is passed, else one that is set, else the usual one.
pub open spec fn setting(
    value: Option<Seq<char>>,
    set: Option<Seq<char>>,
    usual: Seq<char>,
) -> Seq<char> {
    match (value, set) {
        (Some(value), _) => value,
        (None, Some(value)) => value,
        (None, None) => usual,
    }
}

/// A value that is passed, else one that is set, else the usual one.
pub fn protocol_setting(value: Option<&str>, set: Option<&str>, usual: &str) -> (r: String)
    ensures
        r@ == setting(text::opt_str_view(value), text::opt_str_view(set), usual@),
{
    match (value, set) {
        (Some(value), _) => text::copied(value),
        (None, Some(value)) => text::copied(value),
        (None, None) => text::copied(usual),
    }
}

/// The application version that requests carry.
pub fn ws_app_version(value: Option<&str>, set: Option<&str>) -> (r: String)
    ensures
        r@ == setting(text::opt_str_view(value), text::opt_str_view(set), DEFAULT_WS_APP_VER@),
{
    protocol_setting(value, set, DEFAULT_WS_APP_VER)
}

/// The language server version that requests carry.
pub fn ws_ls_version(value: Option<&str>, set: Option<&str>) -> (r: String)
    ensures
        r@ == setting(text::opt_str_view(value), text::opt_str_view(set), DEFAULT_WS_LS_VER@),
{
    protocol_setting(value, set, DEFAULT_WS_LS_VER)
}

/// Whether there is a key, and which versions requests would carry.
pub fn check_auth(sources: &KeySources, app_version: &str, ls_version: &str) -> (r: AuthCheck)
    ensures
        r.ok == (chosen(*sources) is Some),
        text::opt_view(r.error_code) == if r.ok {
            None
        } else {
            Some("API_KEY_ERROR"@)
        },
        text::opt_view(r.error) == if r.ok {
            None
        } else {
            Some(no_key_text(sources.config_path@))
        },
        r.jwt_source@ == "api-key"@,
        r.app_version@ == app_version@,
        r.ls_version@ == ls_version@,
{
    let (ok, error_code, error) = match get_api_key(sources) {
        Ok(_) => (true, None, None),
        Err(message) => (false, Some(text::copied("API_KEY_ERROR")), Some(message)),
    };
    AuthCheck {
        ok,
        error_code,
        error,
        jwt_source: text::copied("api-key"),
        app_version: text::copied(app_version),
        ls_version: text::copied(ls_version),
    }
}

/// What the URL-safe alphabet of base64, with padding, stands for.
pub uninterp spec fn base64_url_bytes(encoded: Seq<char>) -> Option<Seq<u8>>;

/// `base64::engine::general_purpose::URL_SAFE.decode`: the bytes that a text
/// of the URL-safe alphabet with its padding stands for, where it is one. They
/// depend on the text alone.
#[verifier::external_body]
fn decode_base64_url(encoded: &str) -> (r: Option<Vec<u8>>)
    ensures
        match r {
            Some(data) => base64_url_bytes(encoded@) == Some(data@),
            None => base64_url_bytes(encoded@) is None,
        },
{
    base64::Engine::decode(&base64::engine::general_purpose::URL_SAFE, encoded).ok()
}

/// A text with as many equals signs behind it as make its size a multiple of four.
pub open spec fn padded(encoded: Seq<char>) -> Seq<char> {
    encoded + Seq::new(((4 - text::size(encoded) % 4) % 4) as nat, |i: int| '=')
}

/// A text with as many equals signs behind it as make its size a multiple of four.
pub fn pad_base64(encoded: &str) -> (r: String)
    ensures
        r@ == padded(encoded@),
{
    let missing = (4 - text::byte_len(encoded) % 4) % 4;
    let mut out = text::copied(encoded);
    let mut i: usize = 0;
    assert(out@ =~= encoded@ + Seq::new(0, |i: int| '='));
    while i < missing
        invariant
            i <= missing,
            out@ == encoded@ + Seq::new(i as nat, |i: int| '='),
        decreases missing - i,
    {
        out.push('=');
        i += 1;
        assert(out@ =~= encoded@ + Seq::new(i as nat, |i: int| '='));
    }
    out
}

/// What the payload of a token says, where it can be read.
pub open spec fn token_payload(jwt: Seq<char>) -> Option<Tree> {
    let parts = text::split(jwt, '.');
    if parts.len() < 2 {
        None
    } else {
        match base64_url_bytes(padded(parts[1])) {
            Some(data) => json::json_parse_bytes(data),
            None => None,
        }
    }
}

/// What the payload of a token says, where it can be read.
pub fn jwt_payload(jwt: &str) -> (r: Option<Json>)
    ensures
        json::opt_tree(r) == token_payload(jwt@),
        r matches Some(payload) ==> json::proper(payload@),
{
    let parts = text::split_on(jwt, '.');
    if parts.len() < 2 {
        return None;
    }
    assert(text::views(parts@)[1] == parts@[1]@);
    let encoded = pad_base64(&parts[1]);
    match decode_base64_url(&encoded) {
        Some(data) => json::parse_bytes(&data),
        None => None,
    }
}

/// The number under `exp` in a payload.
pub open spec fn expiry_in(payload: Tree) -> Option<Tree> {
    match payload.get("exp"@) {
        Some(Tree::Integer(n)) => Some(Tree::Integer(n)),
        Some(Tree::Float(n)) => Some(Tree::Float(n)),
        _ => None,
    }
}

/// The number under `exp` in a payload, where there is one.
pub fn payload_expiry(payload: &Json) -> (r: Option<Json>)
    ensures
        json::opt_tree(r) == expiry_in(payload@),
{
    match payload.get("exp") {
        Some(value) => match value {
            Json::Integer(n) => Some(Json::Integer(*n)),
            Json::Float(n) => Some(Json::Float(n.clone())),
            Json::Array(items) => {
                proof {
                    json::lemma_array_view(*items);
                }
                None
            },
            Json::Object(entries) => {
                proof {
                    json::lemma_object_view(*entries);
                }
                None
            },
            _ => None,
        },
        None => None,
    }
}

/// When a token ends, in seconds since 1970, where it says so with a number.
pub open spec fn token_expiry(jwt: Seq<char>) -> Option<Tree> {
    match token_payload(jwt) {
        Some(payload) => expiry_in(payload),
        None => None,
    }
}

/// When a token ends, in seconds since 1970, where it says so with a number.
pub fn get_jwt_exp(jwt: &str) -> (r: Option<Json>)
    ensures
        json::opt_tree(r) == token_expiry(jwt@),
{
    match jwt_payload(jwt) {
        Some(payload) => payload_expiry(&payload),
        None => None,
    }
}

/// The request for a token.
pub open spec fn token_request(
    api_key: Seq<char>,
    app_version: Seq<char>,
    ls_version: Seq<char>,
) -> Seq<u8> {
    protobuf::bytes_field(
        1,
        protocol::text_field(1, WS_APP@) + protocol::text_field(2, app_version)
            + protocol::text_field(3, api_key) + protocol::text_field(4, "zh-cn"@)
            + protocol::text_field(7, ls_version) + protocol::text_field(12, WS_APP@)
            + protobuf::bytes_field(30, seq![0u8, 1u8]),
    )
}

/// The request for a token.
pub fn build_jwt_request(api_key: &str, app_version: &str, ls_version: &str) -> (r: Vec<u8>)
    ensures
        r@ == token_request(api_key@, app_version@, ls_version@),
{
    let mut meta = ProtobufEncoder::new();
    meta.write_string(1, WS_APP);
    meta.write_string(2, app_version);
    meta.write_string(3, api_key);
    meta.write_string(4, "zh-cn");
    meta.write_string(7, ls_version);
    meta.write_string(12, WS_APP);
    let mark: Vec<u8> = vec![0u8, 1u8];
    assert(mark@ =~= seq![0u8, 1u8]);
    meta.write_bytes(30, &mark);
    let ghost body = protocol::text_field(1, WS_APP@) + protocol::text_field(2, app_version@)
        + protocol::text_field(3, api_key@) + protocol::text_field(4, "zh-cn"@)
        + protocol::text_field(7, ls_version@) + protocol::text_field(12, WS_APP@)
        + protobuf::bytes_field(30, seq![0u8, 1u8]);
    assert(meta@ =~= body);
    let mut outer = ProtobufEncoder::new();
    outer.write_message(1, &meta);
    assert(outer@ =~= protobuf::bytes_field(1, body));
    outer.to_bytes()
}

/// The first of the texts that looks like a token.
pub open spec fn first_token(values: Seq<Seq<char>>) -> Option<Seq<char>>
    decreases values.len(),
{
    if values.len() == 0 {
        None
    } else if credentials::is_token_like(values[0]) {
        Some(values[0])
    } else {
        first_token(values.skip(1))
    }
}

/// The error for a reply without a token.
pub open spec fn no_token_fault() -> Fault {
    Fault {
        message: "Failed to extract JWT from GetUserJwt response"@,
        code: "NETWORK_ERROR"@,
        details: Tree::Null,
    }
}

/// The token that a reply holds.
pub fn read_jwt_response(response: &[u8]) -> (r: Result<String, FastContextError>)
    ensures
        match first_token(protobuf::extracted(response@)) {
            Some(token) => r matches Ok(found) && found@ == token,
            None => r matches Err(error) && error@ == no_token_fault(),
        },
{
    let values = protobuf::extract_strings(response);
    let ghost all = text::views(values@);
    let mut i: usize = 0;
    assert(all.skip(0) =~= all);
    while i < values.len()
        invariant
            i <= values@.len(),
            all == text::views(values@),
            all == protobuf::extracted(response@),
            first_token(all.skip(i as int)) == first_token(all),
        decreases values@.len() - i,
    {
        assert(all.skip(i as int)[0] == values@[i as int]@);
        if credentials::looks_like_token(&values[i]) {
            return Ok(values[i].clone());
        }
        assert(all.skip(i as int).skip(1) =~= all.skip(i + 1));
        i += 1;
    }
    Err(
        FastContextError::new(
            "Failed to extract JWT from GetUserJwt response",
            "NETWORK_ERROR",
            Json::Null,
        ),
    )
}

/// A key that was passed or set but is cut off gives way to the one that was found, and is
/// kept where none was.
pub proof fn law_cut_off_keys_give_way(sources: KeySources, key: String)
    requires
        credentials::is_cut_off(key@),
        sources.passed == Some(key) || sources.passed is None && sources.environment == Some(key),
    ensures
        sources.discovered matches Some(found) ==> chosen(sources) == Some(
            (
                found@,
                if sources.passed is Some {
                    KeyOrigin::InPlaceOfPassed
                } else {
                    KeyOrigin::InPlaceOfEnvironment
                },
            ),
        ),
        sources.discovered is None ==> (chosen(sources) matches Some(taken) && taken.0 == key@),
{
}

/// A setting that is passed goes before one that is set, and that before the usual one.
pub proof fn law_passed_setting_goes_first(value: Seq<char>, set: Option<Seq<char>>, usual: Seq<char>)
    ensures
        setting(Some(value), set, usual) == value,
        setting(None, Some(value), usual) == value,
        setting(None, None, value) == value,
{
}

/// What a token says is its second part, filled up with `=` to a multiple of four bytes and
/// decoded; its other parts do not count.
pub proof fn law_second_part_of_token_is_read(parts: Seq<Seq<char>>, fill: nat, data: Seq<u8>)
    requires
        parts.len() >= 2,
        forall|i: int| 0 <= i < parts.len() ==> !(#[trigger] parts[i]).contains('.'),
        fill < 4,
        (text::size(parts[1]) + fill) % 4 == 0,
        base64_url_bytes(parts[1] + Seq::new(fill, |i: int| '=')) == Some(data),
    ensures
        token_payload(text::joined(parts, seq!['.'])) == json::json_parse_bytes(data),
        json::json_parse_bytes(data) matches Some(payload) ==> (payload.get("exp"@) matches Some(
            Tree::Integer(n),
        ) ==> token_expiry(text::joined(parts, seq!['.'])) == Some(Tree::Integer(n))),
        json::json_parse_bytes(data) matches Some(payload) ==> (payload.get("exp"@) matches Some(
            Tree::Text(_),
        ) ==> token_expiry(text::joined(parts, seq!['.'])) is None),
{
    text::law_split_joined(parts, '.');
    let size = text::size(parts[1]) as int;
    assert(fill == (4 - size % 4) % 4);
    assert(padded(parts[1]) =~= parts[1] + Seq::new(fill, |i: int| '='));
}

/// A text without a dot is no token.
pub proof fn law_token_has_parts(text: Seq<char>)
    requires
        !text.contains('.'),
    ensures
        token_payload(text) is None,
        token_expiry(text) is None,
{
    let parts = seq![text];
    text::law_split_joined(parts, '.');
    assert(text::joined(parts, seq!['.']) =~= text);
}

/// Of the texts of a reply the first that starts as a token does and has a dot is taken.
pub proof fn law_first_token_is_taken(
    before: Seq<Seq<char>>,
    token: Seq<char>,
    behind: Seq<Seq<char>>,
)
    requires
        forall|i: int|
            0 <= i < before.len() ==> !("eyJ"@.is_prefix_of(#[trigger] before[i]) && text::contains(
                before[i],
                "."@,
            )),
        "eyJ"@.is_prefix_of(token),
        text::contains(token, "."@),
    ensures
        first_token(before + seq![token] + behind) == Some(token),
        first_token(before) is None,
    decreases before.len(),
{
    let all = before + seq![token] + behind;
    if before.len() == 0 {
        assert(all[0] == token);
    } else {
        let rest = before.skip(1);
        assert forall|i: int| 0 <= i < rest.len() implies !("eyJ"@.is_prefix_of(#[trigger] rest[i])
            && text::contains(rest[i], "."@)) by {
            assert(rest[i] == before[i + 1]);
        }
        law_first_token_is_taken(rest, token, behind);
        assert(all[0] == before[0]);
        assert(all.skip(1) =~= rest + seq![token] + behind);
    }
}

/// Whether `data` holds `part` in one piece.
pub open spec fn holds(data: Seq<u8>, part: Seq<u8>) -> bool {
    exists|from: int|
        0 <= from && from + part.len() <= data.len() && #[trigger] data.subrange(
            from,
            from + part.len(),
        ) == part
}

/// A request for a token carries the key and the versions, each in its field.
pub proof fn law_token_request_carries_the_key(
    api_key: Seq<char>,
    app_version: Seq<char>,
    ls_version: Seq<char>,
)
    ensures
        ({
            let request = token_request(api_key, app_version, ls_version);
            &&& holds(request, protobuf::bytes_field(2, vstd::utf8::encode_utf8(app_version)))
            &&& holds(request, protobuf::bytes_field(3, vstd::utf8::encode_utf8(api_key)))
            &&& holds(request, protobuf::bytes_field(7, vstd::utf8::encode_utf8(ls_version)))
        }),
{
    let request = token_request(api_key, app_version, ls_version);
    let f1 = protocol::text_field(1, WS_APP@);
    let f2 = protocol::text_field(2, app_version);
    let f3 = protocol::text_field(3, api_key);
    let f4 = protocol::text_field(4, "zh-cn"@);
    let f7 = protocol::text_field(7, ls_version);
    let inner = f1 + f2 + f3 + f4 + f7 + protocol::text_field(12, WS_APP@) + protobuf::bytes_field(
        30,
        seq![0u8, 1u8],
    );
    let head = request.len() - inner.len();
    assert(request =~= request.take(head) + inner);
    let at2 = (head + f1.len()) as int;
    let at3 = (at2 + f2.len()) as int;
    let at7 = (at3 + f3.len() + f4.len()) as int;
    assert(request.subrange(at2, at2 + f2.len()) =~= f2);
    assert(request.subrange(at3, at3 + f3.len()) =~= f3);
    assert(request.subrange(at7, at7 + f7.len()) =~= f7);
}

} // verus!
