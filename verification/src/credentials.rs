//! API keys: where they are kept, how they are told apart, and how they are shown.
use crate::json::{self, Json, Tree};
use crate::patterns;
use crate::paths;
use crate::rg;
use crate::text;
use vstd::prelude::*;
use vstd::utf8::encode_utf8;

verus! {

/// The entry of the config file, and the setting, that hold a key.
pub const CONFIG_KEY: &'static str = "WINDSURF_API_KEY";

/// The record of the database that holds the state of the login.
pub const WINDSURF_AUTH_STATUS_KEY: &'static str = "windsurfAuthStatus";

/// The field of that record that holds the key.
pub const WINDSURF_API_KEY_FIELD: &'static str = "apiKey";

/// What is known of the system: which it is, and the directories that its
/// settings name.
#[derive(Debug, Clone, PartialEq, Eq)]
pub struct Platform {
    pub windows: bool,
    pub macos: bool,
    pub home: Option<String>,
    pub user_profile: Option<String>,
    pub app_data: Option<String>,
    pub xdg_config_home: Option<String>,
}

/// The home directory; the current one where none is set.
pub open spec fn home_of(platform: Platform) -> Seq<char> {
    match (platform.windows, platform.user_profile, platform.home) {
        (true, Some(dir), _) => dir@,
        (_, _, Some(dir)) => dir@,
        _ => "."@,
    }
}

/// The home directory; the current one where none is set.
pub fn home_dir(platform: &Platform) -> (r: String)
    ensures
        r@ == home_of(*platform),
{
    if platform.windows {
        if let Some(dir) = &platform.user_profile {
            return dir.clone();
        }
    }
    match &platform.home {
        Some(dir) => dir.clone(),
        None => text::copied("."),
    }
}

/// The config file.
pub open spec fn config_path(platform: Platform) -> Seq<char> {
    let home = home_of(platform);
    if platform.windows {
        paths::below_on(true, paths::below_on(true, home, ".swegrep"@), "config.json"@)
    } else {
        paths::below(home, ".config/swegrep/config.json"@)
    }
}

/// The config file.
pub fn get_config_path(platform: &Platform) -> (r: String)
    ensures
        r@ == config_path(*platform),
{
    let home = home_dir(platform);
    if platform.windows {
        let dir = paths::join_on(true, &home, ".swegrep");
        paths::join_on(true, &dir, "config.json")
    } else {
        paths::join_path(&home, ".config/swegrep/config.json")
    }
}

/// The key that the content of a config file holds, where it holds one.
pub open spec fn cached_key(content: Option<Seq<char>>) -> Option<Seq<char>> {
    match content {
        Some(content) => match json::json_parse(content) {
            Some(data) => match json::text_at(data, CONFIG_KEY@) {
                Some(key) if key.len() > 0 => Some(key),
                _ => None,
            },
            None => None,
        },
        None => None,
    }
}

/// The key that the content of a config file holds, where it holds one.
pub fn load_cached_api_key(content: Option<&str>) -> (r: Option<String>)
    ensures
        text::opt_view(r) == cached_key(text::opt_str_view(content)),
{
    match content {
        Some(content) => match json::parse(content) {
            Some(data) => key_in_config(&data),
            None => None,
        },
        None => None,
    }
}

/// The key that a config holds, where it holds one.
pub fn key_in_config(data: &Json) -> (r: Option<String>)
    ensures
        text::opt_view(r) == (match json::text_at(data@, CONFIG_KEY@) {
            Some(key) if key.len() > 0 => Some(key),
            _ => None,
        }),
{
    match data.text_at(CONFIG_KEY) {
        Some(key) => if key.is_empty() {
            None
        } else {
            Some(text::copied(key))
        },
        None => None,
    }
}

/// The config that holds a key.
pub open spec fn key_config(key: Seq<char>) -> Tree {
    Tree::Object(seq![(CONFIG_KEY@, Tree::Text(key))])
}

/// The content of the config file that holds a key, which reads back as the
/// key. An empty key is refused.
pub fn save_cached_api_key(key: &str) -> (r: Result<String, String>)
    ensures
        match r {
            Ok(content) => key@.len() > 0 && content@ == json::json_pretty(key_config(key@)).push(
                '\n',
            ) && cached_key(Some(content@)) == Some(key@),
            Err(message) => key@.len() == 0 && message@ == "API key is empty"@,
        },
{
    if key.is_empty() {
        return Err(text::copied("API key is empty"));
    }
    let mut pairs: Vec<(String, Json)> = Vec::new();
    pairs.push(json::pair(CONFIG_KEY, json::text_value(key)));
    let ghost given = seq![(CONFIG_KEY@, Tree::Text(key@))];
    assert(json::entry_trees(pairs@) =~= given);
    let data = json::object(pairs);
    proof {
        assert(given.drop_last() =~= seq![]);
        assert(json::object_of(given.drop_last()) =~= seq![]);
        assert(json::object_of(given) =~= given);
        assert(json::lookup(given, CONFIG_KEY@) == Some(Tree::Text(key@)));
        match data@ {
            Tree::Object(entries) => {
                assert(entries == given);
                assert(forall|i: int| 0 <= i < entries.len() ==> (#[trigger] entries[i]).1 is Text);
            },
            _ => {},
        }
    }
    let mut content = json::print_pretty(&data);
    content.push('\n');
    Ok(content)
}

/// What stands behind the first dollar sign.
pub open spec fn behind_dollar(value: Seq<char>) -> Option<Seq<char>> {
    let at = text::until(value, '$');
    if at < value.len() {
        Some(value.skip(at as int + 1))
    } else {
        None
    }
}

/// What stands behind the first dollar sign.
fn after_dollar(value: &str) -> (r: Option<String>)
    ensures
        text::opt_view(r) == behind_dollar(value@),
{
    let chars = text::chars_of(value);
    let at = text::find_from(&chars, '$', 0);
    assert(value@.skip(0) =~= value@);
    if at < chars.len() {
        let rest = text::from_range(&chars, at + 1, chars.len());
        assert(rest@ =~= value@.skip(at + 1));
        Some(rest)
    } else {
        None
    }
}

/// Whether a text looks like a token.
pub open spec fn is_token_like(value: Seq<char>) -> bool {
    "eyJ"@.is_prefix_of(value) && text::contains(value, "."@)
}

/// Whether a text looks like a token.
pub fn looks_like_token(value: &str) -> (r: bool)
    ensures
        r == is_token_like(value@),
{
    text::starts_with(value, "eyJ") && text::contains_text(value, ".")
}

/// The kind of a key.
pub open spec fn key_kind(value: Seq<char>) -> Seq<char> {
    if "sk-"@.is_prefix_of(value) {
        "standard"@
    } else if behind_dollar(value) matches Some(jwt) && is_token_like(jwt) {
        if "devin-session-token$"@.is_prefix_of(value) {
            "session-token"@
        } else {
            "embedded-jwt"@
        }
    } else {
        "unknown"@
    }
}

/// The kind of a key.
pub fn classify_api_key(value: &str) -> (r: &'static str)
    ensures
        r@ == key_kind(value@),
{
    if text::starts_with(value, "sk-") {
        return "standard";
    }
    if let Some(jwt) = after_dollar(value) {
        if looks_like_token(&jwt) {
            return if text::starts_with(value, "devin-session-token$") {
                "session-token"
            } else {
                "embedded-jwt"
            };
        }
    }
    "unknown"
}

/// Whether a key can be used: any that is more than white space.
pub open spec fn is_usable(value: Seq<char>) -> bool {
    text::trimmed(value).len() > 0
}

/// Whether a key can be used: any that is more than white space.
pub fn is_supported_api_key(value: &str) -> (r: bool)
    ensures
        r == is_usable(value@),
{
    let key = text::trim(value);
    !key.as_str().is_empty()
}

/// Whether a key is a session token whose token is missing.
pub open spec fn is_cut_off(value: Seq<char>) -> bool {
    let key = text::trimmed(value);
    "devin-session-token"@.is_prefix_of(key) && match behind_dollar(key) {
        Some(jwt) => !"eyJ"@.is_prefix_of(jwt),
        None => true,
    }
}

/// Whether a key is a session token whose token is missing. A shell cuts a key
/// off where it takes the dollar sign for a variable.
pub fn looks_truncated_api_key(value: &str) -> (r: bool)
    ensures
        r == is_cut_off(value@),
{
    let key = text::trim(value);
    if !text::starts_with(&key, "devin-session-token") {
        return false;
    }
    match after_dollar(&key) {
        Some(jwt) => !text::starts_with(&jwt, "eyJ"),
        None => true,
    }
}

/// The database of an application below a config directory.
pub open spec fn db_below(windows: bool, dir: Seq<char>, application: Seq<char>) -> Seq<char> {
    let own = paths::below_on(windows, dir, application);
    let user = paths::below_on(windows, own, "User"@);
    let storage = paths::below_on(windows, user, "globalStorage"@);
    paths::below_on(windows, storage, "state.vscdb"@)
}

/// The database of an application below a config directory.
fn db_in(windows: bool, dir: &str, application: &str) -> (r: String)
    ensures
        r@ == db_below(windows, dir@, application@),
{
    let own = paths::join_on(windows, dir, application);
    let user = paths::join_on(windows, &own, "User");
    let storage = paths::join_on(windows, &user, "globalStorage");
    paths::join_on(windows, &storage, "state.vscdb")
}

/// The config directory of a user of the Windows system around this one.
pub open spec fn roaming_dir(user: Seq<char>) -> Seq<char> {
    paths::below(paths::below("/mnt/c/Users"@, user), "AppData/Roaming"@)
}

/// The databases of an application for the users of the Windows system around
/// this one, in their order. A user whose name starts with a dot has none.
pub open spec fn guest_dbs(users: Seq<Seq<char>>, application: Seq<char>) -> Seq<Seq<char>>
    decreases users.len(),
{
    if users.len() == 0 {
        seq![]
    } else {
        let before = guest_dbs(users.drop_last(), application);
        if "."@.is_prefix_of(users.last()) {
            before
        } else {
            before.push(db_below(false, roaming_dir(users.last()), application))
        }
    }
}

/// The databases of an application for the users of the Windows system around
/// this one.
fn list_guest_dbs(users: &Vec<String>, application: &str) -> (r: Vec<String>)
    ensures
        text::views(r@) == guest_dbs(text::views(users@), application@),
{
    let ghost all = text::views(users@);
    let mut out: Vec<String> = Vec::new();
    let mut i: usize = 0;
    assert(all.take(0) =~= seq![]);
    assert(text::views(out@) =~= seq![]);
    while i < users.len()
        invariant
            i <= users@.len(),
            all == text::views(users@),
            text::views(out@) == guest_dbs(all.take(i as int), application@),
        decreases users@.len() - i,
    {
        let ghost before = text::views(out@);
        proof {
            assert(all.take(i + 1).drop_last() =~= all.take(i as int));
            assert(all.take(i + 1).last() == users@[i as int]@);
        }
        if !text::starts_with(&users[i], ".") {
            let user_dir = paths::join_path("/mnt/c/Users", &users[i]);
            let dir = paths::join_path(&user_dir, "AppData/Roaming");
            let path = db_in(false, &dir, application);
            let ghost shown = path@;
            out.push(path);
            assert(text::views(out@) =~= before.push(shown));
        }
        i += 1;
    }
    assert(all.take(i as int) =~= all);
    out
}

/// The directory that holds the config directories of applications, where it
/// is known.
pub open spec fn applications_dir(platform: Platform) -> Option<Seq<char>> {
    if platform.macos {
        Some(paths::below(home_of(platform), "Library/Application Support"@))
    } else if platform.windows {
        text::opt_view(platform.app_data)
    } else {
        match platform.xdg_config_home {
            Some(dir) => Some(dir@),
            None => Some(paths::below(home_of(platform), ".config"@)),
        }
    }
}

/// The directory that holds the config directories of applications, where it
/// is known.
fn find_applications_dir(platform: &Platform) -> (r: Option<String>)
    ensures
        text::opt_view(r) == applications_dir(*platform),
{
    let home = home_dir(platform);
    if platform.macos {
        return Some(paths::join_path(&home, "Library/Application Support"));
    }
    if platform.windows {
        return match &platform.app_data {
            Some(dir) => Some(dir.clone()),
            None => None,
        };
    }
    match &platform.xdg_config_home {
        Some(dir) => Some(dir.clone()),
        None => Some(paths::join_path(&home, ".config")),
    }
}

/// The databases of an application, in the order in which they are looked for:
/// on systems that are neither macOS nor Windows first those of the users of a
/// Windows system around it.
pub open spec fn application_dbs(
    platform: Platform,
    users: Seq<Seq<char>>,
    application: Seq<char>,
) -> Seq<Seq<char>> {
    let guests = if platform.macos || platform.windows {
        seq![]
    } else {
        guest_dbs(users, application)
    };
    match applications_dir(platform) {
        Some(dir) => guests.push(db_below(platform.windows, dir, application)),
        None => guests,
    }
}

/// The databases that can hold a key, in the order in which they are looked
/// for: those of Windsurf, then those of Devin.
pub open spec fn db_candidates(platform: Platform, users: Seq<Seq<char>>) -> Seq<Seq<char>> {
    application_dbs(platform, users, "Windsurf"@) + application_dbs(platform, users, "devin"@)
}

/// The databases of an application, in the order in which they are looked for.
fn list_application_dbs(platform: &Platform, users: &Vec<String>, application: &str) -> (r: Vec<
    String,
>)
    ensures
        text::views(r@) == application_dbs(*platform, text::views(users@), application@),
{
    let mut out: Vec<String> = Vec::new();
    assert(text::views(out@) =~= seq![]);
    if !(platform.macos || platform.windows) {
        out = list_guest_dbs(users, application);
    }
    let ghost guests = text::views(out@);
    if let Some(dir) = find_applications_dir(platform) {
        let path = db_in(platform.windows, &dir, application);
        let ghost shown = path@;
        out.push(path);
        assert(text::views(out@) =~= guests.push(shown));
    }
    out
}

/// The databases that can hold a key, in the order in which they are looked for.
pub fn windsurf_db_candidates(platform: &Platform, users: &Vec<String>) -> (r: Vec<String>)
    ensures
        text::views(r@) == db_candidates(*platform, text::views(users@)),
{
    let mut out = list_application_dbs(platform, users, "Windsurf");
    let ghost first = text::views(out@);
    let mut more = list_application_dbs(platform, users, "devin");
    let ghost second = text::views(more@);
    out.append(&mut more);
    assert(text::views(out@) =~= first + second);
    out
}

/// The database that is read: the first that is there, and where none is, the
/// one that Windsurf would have.
pub open spec fn db_path(
    platform: Platform,
    users: Seq<Seq<char>>,
    existing: Seq<Seq<char>>,
) -> Option<Seq<char>> {
    match applications_dir(platform) {
        Some(dir) => match rg::first_existing(db_candidates(platform, users), existing) {
            Some(path) => Some(path),
            None => Some(db_below(platform.windows, dir, "Windsurf"@)),
        },
        None => None,
    }
}

/// The database that is read, given those of the candidates that are there.
pub fn get_windsurf_db_path(platform: &Platform, users: &Vec<String>, existing: &Vec<String>) -> (r:
    Result<String, String>)
    ensures
        match db_path(*platform, text::views(users@), text::views(existing@)) {
            Some(path) => r matches Ok(found) && found@ == path,
            None => r matches Err(message) && message@ == "Cannot determine APPDATA path"@,
        },
{
    match find_applications_dir(platform) {
        Some(dir) => {
            let candidates = windsurf_db_candidates(platform, users);
            match rg::find_existing(&candidates, existing) {
                Some(path) => Ok(path),
                None => Ok(db_in(platform.windows, &dir, "Windsurf")),
            }
        },
        None => Err(text::copied("Cannot determine APPDATA path")),
    }
}

/// What came of the look for a key.
#[derive(Debug, Clone, PartialEq, Eq)]
pub struct ExtractKeyResult {
    pub api_key: Option<String>,
    pub error: Option<String>,
    pub hint: Option<String>,
    pub db_path: String,
    pub key_type: Option<String>,
}

/// What the look for a key says.
#[verifier::ext_equal]
pub struct Extraction {
    pub api_key: Option<Seq<char>>,
    pub error: Option<Seq<char>>,
    pub hint: Option<Seq<char>>,
    pub db_path: Seq<char>,
    pub key_type: Option<Seq<char>>,
}

impl View for ExtractKeyResult {
    type V = Extraction;

    open spec fn view(&self) -> Extraction {
        Extraction {
            api_key: text::opt_view(self.api_key),
            error: text::opt_view(self.error),
            hint: text::opt_view(self.hint),
            db_path: self.db_path@,
            key_type: text::opt_view(self.key_type),
        }
    }
}

/// A key that was found.
pub open spec fn extracted_key(key: Seq<char>, path: Seq<char>) -> Extraction {
    Extraction {
        api_key: Some(key),
        error: None,
        hint: None,
        db_path: path,
        key_type: Some(key_kind(key)),
    }
}

/// Why no key was found.
pub open spec fn no_key(message: Seq<char>, hint: Option<Seq<char>>, path: Seq<char>) -> Extraction {
    Extraction { api_key: None, error: Some(message), hint, db_path: path, key_type: None }
}

impl ExtractKeyResult {
    /// A key that was found.
    fn success(key: &str, path: &str) -> (r: ExtractKeyResult)
        ensures
            r@ == extracted_key(key@, path@),
    {
        ExtractKeyResult {
            api_key: Some(text::copied(key)),
            error: None,
            hint: None,
            db_path: text::copied(path),
            key_type: Some(text::copied(classify_api_key(key))),
        }
    }

    /// Why no key was found.
    fn error(message: &str, hint: Option<&str>, path: &str) -> (r: ExtractKeyResult)
        ensures
            r@ == no_key(message@, text::opt_str_view(hint), path@),
    {
        ExtractKeyResult {
            api_key: None,
            error: Some(text::copied(message)),
            hint: match hint {
                Some(hint) => Some(text::copied(hint)),
                None => None,
            },
            db_path: text::copied(path),
            key_type: None,
        }
    }
}

/// What a look into the database found: no path to look at, no file, a file
/// that could not be opened or asked, no record of the login, or its value.
#[derive(Debug, Clone, PartialEq, Eq)]
pub enum DbRead {
    NoPath(String),
    Missing { path: String },
    OpenFailed { path: String, message: String },
    QueryFailed { path: String, message: String },
    NoRecord { path: String },
    Record { path: String, value: String },
}

/// What a record of the login says of the key.
pub open spec fn key_of_login(data: Option<Tree>, path: Seq<char>) -> Extraction {
    match data {
        None => no_key("windsurfAuthStatus data parse failed"@, None, path),
        Some(data) => match data.get(WINDSURF_API_KEY_FIELD@) {
            None => no_key("apiKey field is empty"@, None, path),
            Some(Tree::Text(key)) => if key.len() == 0 {
                no_key("apiKey field is empty"@, None, path)
            } else {
                extracted_key(key, path)
            },
            Some(_) => no_key("apiKey field is not a string"@, None, path),
        },
    }
}

/// What a look into the database says of the key.
pub open spec fn extraction(read: DbRead) -> Extraction {
    match read {
        DbRead::NoPath(message) => no_key(
            "Cannot determine database path: "@ + message@,
            None,
            ""@,
        ),
        DbRead::Missing { path } => no_key(
            "Windsurf database not found: "@ + path@,
            Some("Ensure Windsurf is installed and logged in."@),
            path@,
        ),
        DbRead::OpenFailed { path, message } => no_key(
            "Failed to open database: "@ + message@,
            None,
            path@,
        ),
        DbRead::QueryFailed { path, message } => no_key(
            "Extraction failed: "@ + message@,
            None,
            path@,
        ),
        DbRead::NoRecord { path } => no_key(
            "windsurfAuthStatus record not found"@,
            Some("Ensure Windsurf is logged in."@),
            path@,
        ),
        DbRead::Record { path, value } => key_of_login(json::json_parse(value@), path@),
    }
}

/// What a record of the login says of the key.
pub fn extract_key_from_login(data: Option<&Json>, path: &str) -> (r: ExtractKeyResult)
    ensures
        r@ == key_of_login(json::opt_ref_tree(data), path@),
{
    let data = match data {
        Some(data) => data,
        None => {
            return ExtractKeyResult::error("windsurfAuthStatus data parse failed", None, path);
        },
    };
    match data.get(WINDSURF_API_KEY_FIELD) {
        None => ExtractKeyResult::error("apiKey field is empty", None, path),
        Some(value) => match value.as_str() {
            Some(key) => if key.is_empty() {
                ExtractKeyResult::error("apiKey field is empty", None, path)
            } else {
                ExtractKeyResult::success(key, path)
            },
            None => ExtractKeyResult::error("apiKey field is not a string", None, path),
        },
    }
}

/// What a look into the database says of the key.
pub fn extract_key(read: &DbRead) -> (r: ExtractKeyResult)
    ensures
        r@ == extraction(*read),
{
    match read {
        DbRead::NoPath(message) => ExtractKeyResult::error(
            &text::chained("Cannot determine database path: ", message),
            None,
            "",
        ),
        DbRead::Missing { path } => ExtractKeyResult::error(
            &text::chained("Windsurf database not found: ", path),
            Some("Ensure Windsurf is installed and logged in."),
            path,
        ),
        DbRead::OpenFailed { path, message } => ExtractKeyResult::error(
            &text::chained("Failed to open database: ", message),
            None,
            path,
        ),
        DbRead::QueryFailed { path, message } => ExtractKeyResult::error(
            &text::chained("Extraction failed: ", message),
            None,
            path,
        ),
        DbRead::NoRecord { path } => ExtractKeyResult::error(
            "windsurfAuthStatus record not found",
            Some("Ensure Windsurf is logged in."),
            path,
        ),
        DbRead::Record { path, value } => match json::parse(value) {
            Some(data) => extract_key_from_login(Some(&data), path),
            None => extract_key_from_login(None, path),
        },
    }
}

/// The key that the database holds, where it can be used.
pub open spec fn discovered_key(read: DbRead) -> Option<Seq<char>> {
    match extraction(read).api_key {
        Some(key) if is_usable(key) => Some(key),
        _ => None,
    }
}

/// The key that the database holds, where it can be used.
pub fn discover_api_key(read: &DbRead) -> (r: Option<String>)
    ensures
        text::opt_view(r) == discovered_key(*read),
{
    let result = extract_key(read);
    match result.api_key {
        Some(key) => if is_supported_api_key(&key) {
            Some(key)
        } else {
            None
        },
        None => None,
    }
}

/// A look for a key finds one or says why not, never both.
pub proof fn law_extraction_is_decided(read: DbRead)
    ensures
        extraction(read).api_key is Some <==> extraction(read).error is None,
        extraction(read).api_key is Some <==> extraction(read).key_type is Some,
        extraction(read).api_key matches Some(key) ==> key.len() > 0,
{
}

/// `n` stars.
pub open spec fn stars(n: nat) -> Seq<char> {
    Seq::new(n, |i: int| '*')
}

/// A key as it may be shown: its ends, or only stars for a short key.
pub open spec fn masked(key: Seq<char>) -> Seq<char> {
    let size = text::size(key);
    if size <= 16 {
        stars(size)
    } else {
        patterns::byte_slice(key, 0, 10) + "..."@ + patterns::byte_slice(
            key,
            size - 6,
            size as int,
        )
    }
}

/// A key as it may be shown: its first ten and its last six bytes, or only
/// stars for a key of at most sixteen bytes. Where a longer key holds a character
/// across one of these places there is nothing to show.
pub fn mask_api_key(key: &str) -> (r: String)
    requires
        text::size(key@) > 16 ==> {
            &&& vstd::utf8::is_char_boundary(encode_utf8(key@), 10)
            &&& vstd::utf8::is_char_boundary(encode_utf8(key@), text::size(key@) - 6)
        },
    ensures
        r@ == masked(key@),
{
    let size = text::byte_len(key);
    if size <= 16 {
        let mut out = String::new();
        let mut i: usize = 0;
        assert(out@ =~= stars(0));
        while i < size
            invariant
                i <= size,
                out@ == stars(i as nat),
            decreases size - i,
        {
            out.push('*');
            i += 1;
            assert(out@ =~= stars(i as nat));
        }
        return out;
    }
    proof {
        encode_is_valid(key@);
    }
    let mut out = patterns::slice_bytes(key, 0, 10);
    let end = patterns::slice_bytes(key, size - 6, size);
    out.append("...");
    out.append(&end);
    out
}

/// The bytes of a text start and end with whole characters.
proof fn encode_is_valid(content: Seq<char>)
    ensures
        vstd::utf8::is_char_boundary(encode_utf8(content), 0),
        vstd::utf8::is_char_boundary(encode_utf8(content), text::size(content) as int),
{
    vstd::utf8::encode_utf8_valid_utf8(content);
    vstd::utf8::is_char_boundary_start_end_of_seq(encode_utf8(content));
}

/// Whether the ends of a key can be shown.
pub fn can_mask(key: &str) -> (r: bool)
    ensures
        r == (text::size(key@) > 16 ==> {
            &&& vstd::utf8::is_char_boundary(encode_utf8(key@), 10)
            &&& vstd::utf8::is_char_boundary(encode_utf8(key@), text::size(key@) - 6)
        }),
{
    let size = text::byte_len(key);
    size <= 16 || (key.is_char_boundary(10) && key.is_char_boundary(size - 6))
}

/// A key of the service starts with `sk-`. Another is told by the token behind its `$`: one
/// of a session by what stands before it.
pub proof fn law_keys_are_told_apart(front: Seq<char>, token: Seq<char>, key: Seq<char>)
    requires
        !front.contains('$'),
        !("sk-"@.is_prefix_of(front + seq!['$'] + token)),
    ensures
        "sk-"@.is_prefix_of(key) ==> key_kind(key) == "standard"@,
        "eyJ"@.is_prefix_of(token) && text::contains(token, "."@) ==> key_kind(
            front + seq!['$'] + token,
        ) == if front == "devin-session-token"@ {
            "session-token"@
        } else {
            "embedded-jwt"@
        },
        !("eyJ"@.is_prefix_of(token) && text::contains(token, "."@)) ==> key_kind(
            front + seq!['$'] + token,
        ) == "unknown"@,
{
    let whole = front + seq!['$'] + token;
    let n = front.len() as int;
    assert forall|i: int| 0 <= i < n implies whole[i] != '$' by {
        assert(whole[i] == front[i]);
        assert(front.contains(front[i]));
    }
    assert(whole[n] == '$');
    text::lemma_until_is(whole, '$', n);
    assert(whole.skip(n + 1) =~= token);
    reveal_strlit("devin-session-token$");
    reveal_strlit("devin-session-token");
    let long = "devin-session-token$"@;
    let short = "devin-session-token"@;
    assert(long =~= short + seq!['$']);
    if front == short {
        assert(long.is_prefix_of(whole));
    } else if long.is_prefix_of(whole) {
        assert(long =~= whole.subrange(0, 20));
        assert forall|i: int| 0 <= i < 20 implies long[i] == whole[i] by {
            assert(whole.subrange(0, 20)[i] == whole[i]);
        }
        assert(long[19] == '$');
        if n < 19 {
            assert(long[n] == whole[n]);
            assert(short[n] != '$');
            assert(false);
        }
        if n > 19 {
            assert(whole[19] == front[19]);
            assert(false);
        }
        assert(front =~= short) by {
            assert forall|i: int| 0 <= i < 19 implies front[i] == short[i] by {
                assert(long[i] == whole[i]);
                assert(whole[i] == front[i]);
                assert(long[i] == short[i]);
            }
        }
        assert(false);
    }
}

/// A key of a session is cut off where no token follows its `$`, or where it has none; no
/// other key is.
pub proof fn law_only_session_keys_are_cut_off(key: Seq<char>, token: Seq<char>)
    requires
        text::trimmed(key) == key,
        text::trimmed("devin-session-token$"@ + token) == "devin-session-token$"@ + token,
    ensures
        is_cut_off("devin-session-token$"@ + token) <==> !"eyJ"@.is_prefix_of(token),
        "devin-session-token"@.is_prefix_of(key) && !key.contains('$') ==> is_cut_off(key),
        !"devin-session-token"@.is_prefix_of(key) ==> !is_cut_off(key),
{
    reveal_strlit("devin-session-token$");
    reveal_strlit("devin-session-token");
    let whole = "devin-session-token$"@ + token;
    let short = "devin-session-token"@;
    assert("devin-session-token$"@ =~= short + seq!['$']);
    assert forall|i: int| 0 <= i < 19 implies whole[i] == short[i] && whole[i] != '$' by {}
    assert(whole[19] == '$');
    text::lemma_until_is(whole, '$', 19);
    assert(whole.skip(20) =~= token);
    assert(short.is_prefix_of(whole));
    text::lemma_until(key, '$');
    if text::until(key, '$') < key.len() {
        assert(key.contains(key[text::until(key, '$') as int]));
    }
}

/// A saved key is the text, if not empty, of its entry in the config file.
pub proof fn law_saved_key_is_read(content: Seq<char>, data: Tree)
    requires
        json::json_parse(content) == Some(data),
    ensures
        forall|key: Seq<char>|
            key.len() > 0 ==> (#[trigger] cached_key(Some(content)) == Some(key) <==> data.get(
                "WINDSURF_API_KEY"@,
            ) == Some(Tree::Text(key))),
        cached_key(Some(content)) matches Some(key) ==> key.len() > 0,
{
}

/// The key of a login is the text of its entry, with its kind and the database that it was
/// found in; a text that is empty, another value and a login that cannot be read are
/// reported.
pub proof fn law_key_of_login_is_found(read: DbRead, path: String, value: String, data: Tree)
    requires
        read == (DbRead::Record { path, value }),
        json::json_parse(value@) == Some(data),
    ensures
        ({
            let found = extraction(read);
            &&& found.db_path == path@
            &&& found.hint is None
            &&& data.get("apiKey"@) matches Some(Tree::Text(key)) ==> (key.len() > 0 ==> found.api_key
                == Some(key) && found.error is None && found.key_type == Some(key_kind(key)))
            &&& found.api_key matches Some(key) ==> data.get("apiKey"@) == Some(Tree::Text(key))
            &&& data.get("apiKey"@) is None ==> found.error == Some("apiKey field is empty"@)
            &&& data.get("apiKey"@) == Some(Tree::Text(seq![])) ==> found.error == Some(
                "apiKey field is empty"@,
            )
            &&& (data.get("apiKey"@) matches Some(entry) && !(entry is Text)) ==> found.error
                == Some("apiKey field is not a string"@)
        }),
{
}

/// A login that was found is used unless its key is blank, and none is made up where no
/// login was read.
pub proof fn law_found_key_is_used(read: DbRead)
    ensures
        forall|key: Seq<char>|
            #[trigger] discovered_key(read) == Some(key) <==> extraction(read).api_key == Some(key)
                && text::trimmed(key).len() > 0,
        !(read is Record) ==> discovered_key(read) is None,
{
}

/// A long key is shown by its first ten and its last six bytes, a short one by its length.
pub proof fn law_keys_are_masked(front: Seq<char>, middle: Seq<char>, end: Seq<char>, short: Seq<
    char,
>)
    requires
        text::size(front) == 10,
        text::size(end) == 6,
        middle.len() > 0,
        text::size(short) <= 16,
    ensures
        masked(front + middle + end) == front + "..."@ + end,
        masked(short).len() == text::size(short),
        forall|i: int| 0 <= i < masked(short).len() ==> #[trigger] masked(short)[i] == '*',
{
    let whole = front + middle + end;
    text::lemma_encode_concat(front + middle, end);
    text::lemma_encode_concat(front, middle);
    vstd::utf8::encode_utf8_decode_utf8(front);
    vstd::utf8::encode_utf8_decode_utf8(end);
    vstd::utf8::encode_utf8_decode_utf8(middle);
    let data = encode_utf8(whole);
    assert(encode_utf8(middle).len() > 0) by {
        if encode_utf8(middle).len() == 0 {
            assert(encode_utf8(middle) =~= encode_utf8(Seq::<char>::empty()));
            vstd::utf8::encode_utf8_decode_utf8(Seq::<char>::empty());
        }
    }
    let size = data.len() as int;
    assert(data.subrange(0, 10) =~= encode_utf8(front));
    assert(data.subrange(size - 6, size) =~= encode_utf8(end));
}

/// The users whose directories are looked at are those whose names do not start with a dot,
/// in their order.
pub proof fn law_guests_are_looked_at_in_order(users: Seq<Seq<char>>, application: Seq<char>)
    ensures
        guest_dbs(users, application) == users.filter(
            |user: Seq<char>| user.len() == 0 || user[0] != '.',
        ).map_values(
            |user: Seq<char>|
                db_below(
                    false,
                    paths::below(paths::below("/mnt/c/Users"@, user), "AppData/Roaming"@),
                    application,
                ),
        ),
    decreases users.len(),
{
    reveal(Seq::filter);
    let shown = |user: Seq<char>| user.len() == 0 || user[0] != '.';
    let db = |user: Seq<char>|
        db_below(
            false,
            paths::below(paths::below("/mnt/c/Users"@, user), "AppData/Roaming"@),
            application,
        );
    if users.len() > 0 {
        law_guests_are_looked_at_in_order(users.drop_last(), application);
        reveal_strlit(".");
        let user = users.last();
        let dot = "."@;
        assert(dot =~= seq!['.']);
        if user.len() > 0 && user[0] == '.' {
            assert(dot =~= user.take(1));
            assert(dot.is_prefix_of(user));
        } else if dot.is_prefix_of(user) {
            assert(user[0] == dot[0]);
        }
        let before = users.drop_last().filter(shown);
        if shown(user) {
            assert(before.push(user).map_values(db) =~= before.map_values(db).push(db(user)));
        }
    }
}

/// Where a system keeps the databases in one directory, that of Windsurf is looked at first
/// and that of devin next; the guests of a Windows that it runs under come before each.
pub proof fn law_databases_are_looked_at_in_order(
    platform: Platform,
    users: Seq<Seq<char>>,
    dir: Seq<char>,
)
    requires
        applications_dir(platform) == Some(dir),
    ensures
        platform.macos || platform.windows ==> db_candidates(platform, users) == seq![
            db_below(platform.windows, dir, "Windsurf"@),
            db_below(platform.windows, dir, "devin"@),
        ],
        !platform.macos && !platform.windows ==> db_candidates(platform, users) == guest_dbs(
            users,
            "Windsurf"@,
        ) + seq![db_below(false, dir, "Windsurf"@)] + guest_dbs(users, "devin"@) + seq![
            db_below(false, dir, "devin"@),
        ],
{
}

/// A database stands in the directory of its application, as the application lays it out.
pub proof fn law_database_stands_below(dir: Seq<char>, application: Seq<char>)
    requires
        dir.len() > 0,
        dir.last() != '/',
        application.len() > 0,
        application[0] != '/',
        application.last() != '/',
    ensures
        db_below(false, dir, application) == dir + "/"@ + application
            + "/User/globalStorage/state.vscdb"@,
{
    reveal_strlit("/");
    reveal_strlit("User");
    reveal_strlit("globalStorage");
    reveal_strlit("state.vscdb");
    reveal_strlit("/User/globalStorage/state.vscdb");
    assert("/User/globalStorage/state.vscdb"@ =~= "/"@ + "User"@ + "/"@ + "globalStorage"@ + "/"@
        + "state.vscdb"@);
    let own = dir + seq!['/'] + application;
    let user = own + seq!['/'] + "User"@;
    let storage = user + seq!['/'] + "globalStorage"@;
    assert(own.last() == application.last());
    assert(user.last() == 'r');
    assert(storage.last() == 'e');
    assert("/"@ =~= seq!['/']);
    assert(db_below(false, dir, application) == storage + seq!['/'] + "state.vscdb"@);
    assert(db_below(false, dir, application) =~= dir + "/"@ + application
        + "/User/globalStorage/state.vscdb"@);
}

/// Of the databases that are looked at the first that exists is taken; where none exists,
/// that of Windsurf.
pub proof fn law_first_database_is_taken(
    platform: Platform,
    users: Seq<Seq<char>>,
    existing: Seq<Seq<char>>,
    dir: Seq<char>,
)
    requires
        applications_dir(platform) == Some(dir),
    ensures
        ({
            let candidates = db_candidates(platform, users);
            let taken = db_path(platform, users, existing);
            &&& forall|i: int|
                0 <= i < candidates.len() && existing.contains(#[trigger] candidates[i]) && (
                forall|j: int| 0 <= j < i ==> !existing.contains(#[trigger] candidates[j]))
                    ==> taken == Some(candidates[i])
            &&& (forall|j: int|
                0 <= j < candidates.len() ==> !existing.contains(#[trigger] candidates[j]))
                ==> taken == Some(db_below(platform.windows, dir, "Windsurf"@))
        }),
{
    rg::law_first_candidate_is_taken(db_candidates(platform, users), existing);
}

/// The config file stands below the home directory of the user, which is where the system
/// says.
pub proof fn law_config_file_stands_at_home(platform: Platform, home: String)
    requires
        home@.len() > 0,
        home@.last() != '/',
        home@.last() != '\\',
    ensures
        !platform.windows && platform.home == Some(home) ==> config_path(platform) == home@
            + "/.config/swegrep/config.json"@,
        platform.windows && platform.user_profile == Some(home) ==> config_path(platform)
            == paths::below_on(true, paths::below_on(true, home@, ".swegrep"@), "config.json"@),
        platform.windows && platform.user_profile is None && platform.home == Some(home)
            ==> home_of(platform) == home@,
        platform.home is None && (platform.user_profile is None || !platform.windows) ==> home_of(
            platform,
        ) == "."@,
{
    reveal_strlit(".config/swegrep/config.json");
    reveal_strlit("/.config/swegrep/config.json");
    assert("/.config/swegrep/config.json"@ =~= seq!['/'] + ".config/swegrep/config.json"@);
    if !platform.windows && platform.home == Some(home) {
        assert(config_path(platform) =~= home@ + "/.config/swegrep/config.json"@);
    }
}

} // verus!
