//! What goes into a search and what comes out of it.
use crate::path_filter::PathFilterConfig;
use crate::text;
use vstd::prelude::*;

verus! {

/// The service that answers search requests.
pub const API_BASE: &'static str =
    "https://server.self-serve.windsurf.com/exa.api_server_pb.ApiServerService";

/// The service that hands out tokens.
pub const AUTH_BASE: &'static str =
    "https://server.self-serve.windsurf.com/exa.auth_pb.AuthService";

/// The name under which the client speaks to the services.
pub const WS_APP: &'static str = "windsurf";

/// The application version that requests carry unless another is set.
pub const DEFAULT_WS_APP_VER: &'static str = "1.48.2";

/// The language server version that requests carry unless another is set.
pub const DEFAULT_WS_LS_VER: &'static str = "1.9544.35";

/// The size in bytes that a scope snapshot may have.
pub const MAX_TREE_BYTES: usize = 32768;

/// A file that a search found, with the line ranges that matter in it.
#[derive(Debug, Clone, PartialEq, Eq)]
pub struct FileEntry {
    pub path: String,
    pub full_path: String,
    pub ranges: Vec<(usize, usize)>,
}

/// What a found file says.
#[verifier::ext_equal]
pub struct Found {
    pub path: Seq<char>,
    pub full_path: Seq<char>,
    pub ranges: Seq<(usize, usize)>,
}

impl View for FileEntry {
    type V = Found;

    open spec fn view(&self) -> Found {
        Found { path: self.path@, full_path: self.full_path@, ranges: self.ranges@ }
    }
}

/// What found files say.
pub open spec fn files_view(files: Seq<FileEntry>) -> Seq<Found> {
    Seq::new(files.len(), |i: int| files[i]@)
}

/// What is known of the way in which a result came about. The size of the
/// scope snapshot is counted in tenths of a kilobyte.
#[derive(Debug, Clone, PartialEq, Eq)]
pub struct SearchMeta {
    pub tree_depth: Option<usize>,
    pub tree_size_tenths_kb: Option<u64>,
    pub fell_back: Option<bool>,
    pub project_root: Option<String>,
    pub error_code: Option<String>,
    pub context_trimmed: Option<bool>,
    pub instant_context: Option<bool>,
}

/// What the circumstances of a result say.
#[verifier::ext_equal]
pub struct Meta {
    pub tree_depth: Option<usize>,
    pub tree_size_tenths_kb: Option<u64>,
    pub fell_back: Option<bool>,
    pub project_root: Option<Seq<char>>,
    pub error_code: Option<Seq<char>>,
    pub context_trimmed: Option<bool>,
    pub instant_context: Option<bool>,
}

impl View for SearchMeta {
    type V = Meta;

    open spec fn view(&self) -> Meta {
        Meta {
            tree_depth: self.tree_depth,
            tree_size_tenths_kb: self.tree_size_tenths_kb,
            fell_back: self.fell_back,
            project_root: text::opt_view(self.project_root),
            error_code: text::opt_view(self.error_code),
            context_trimmed: self.context_trimmed,
            instant_context: self.instant_context,
        }
    }
}

/// Circumstances of which nothing is known.
pub open spec fn no_meta() -> Meta {
    Meta {
        tree_depth: None,
        tree_size_tenths_kb: None,
        fell_back: None,
        project_root: None,
        error_code: None,
        context_trimmed: None,
        instant_context: None,
    }
}

impl Default for SearchMeta {
    fn default() -> (r: Self)
        ensures
            r@ == no_meta(),
    {
        SearchMeta {
            tree_depth: None,
            tree_size_tenths_kb: None,
            fell_back: None,
            project_root: None,
            error_code: None,
            context_trimmed: None,
            instant_context: None,
        }
    }
}

/// Why a search failed.
#[derive(Debug, Clone, PartialEq, Eq)]
pub struct SearchError {
    pub code: String,
    pub message: String,
}

/// What an error says.
#[verifier::ext_equal]
pub struct Failure {
    pub code: Seq<char>,
    pub message: Seq<char>,
}

impl View for SearchError {
    type V = Failure;

    open spec fn view(&self) -> Failure {
        Failure { code: self.code@, message: self.message@ }
    }
}

/// What an optional error says.
pub open spec fn opt_failure(error: Option<SearchError>) -> Option<Failure> {
    match error {
        Some(error) => Some(error@),
        None => None,
    }
}

/// An error on one line.
pub open spec fn failure_line(failure: Failure) -> Seq<char> {
    failure.code + ": "@ + failure.message
}

impl SearchError {
    /// An error with the given code and message.
    pub fn new(code: &str, message: &str) -> (r: SearchError)
        ensures
            r@ == (Failure { code: code@, message: message@ }),
    {
        SearchError { code: text::copied(code), message: text::copied(message) }
    }

    /// The error on one line.
    pub fn line(&self) -> (r: String)
        ensures
            r@ == failure_line(self@),
    {
        let mut out = self.code.clone();
        out.append(": ");
        out.append(&self.message);
        out
    }
}

/// What a search gives.
#[derive(Debug, Clone, PartialEq, Eq)]
pub struct SearchResult {
    pub files: Vec<FileEntry>,
    pub rg_patterns: Vec<String>,
    pub raw_response: Option<String>,
    pub error: Option<SearchError>,
    pub meta: SearchMeta,
}

/// What the outcome of a search says.
#[verifier::ext_equal]
pub struct Outcome {
    pub files: Seq<Found>,
    pub rg_patterns: Seq<Seq<char>>,
    pub raw_response: Option<Seq<char>>,
    pub error: Option<Failure>,
    pub meta: Meta,
}

impl View for SearchResult {
    type V = Outcome;

    open spec fn view(&self) -> Outcome {
        Outcome {
            files: files_view(self.files@),
            rg_patterns: text::views(self.rg_patterns@),
            raw_response: text::opt_view(self.raw_response),
            error: opt_failure(self.error),
            meta: self.meta@,
        }
    }
}

/// An outcome that says nothing.
pub open spec fn no_outcome() -> Outcome {
    Outcome {
        files: seq![],
        rg_patterns: seq![],
        raw_response: None,
        error: None,
        meta: no_meta(),
    }
}

impl Default for SearchResult {
    fn default() -> (r: Self)
        ensures
            r@ == no_outcome(),
    {
        let r = SearchResult {
            files: Vec::new(),
            rg_patterns: Vec::new(),
            raw_response: None,
            error: None,
            meta: SearchMeta::default(),
        };
        assert(r@.files =~= seq![]);
        assert(r@.rg_patterns =~= seq![]);
        r
    }
}

/// What a search is asked to do.
#[derive(Debug, Clone)]
pub struct SearchOptions {
    pub query: String,
    pub project_root: String,
    pub api_key: Option<String>,
    pub jwt: Option<String>,
    pub app_version: Option<String>,
    pub ls_version: Option<String>,
    pub max_turns: usize,
    pub max_commands: usize,
    pub max_results: usize,
    pub tree_depth: usize,
    pub timeout_ms: u64,
    pub path_filter: PathFilterConfig,
    pub result_max_lines: Option<usize>,
    pub line_max_chars: Option<usize>,
}

impl SearchOptions {
    /// A search for `query` under `project_root`, with the default limits.
    pub fn new(query: &str, project_root: &str) -> (r: SearchOptions)
        ensures
            r.query@ == query@,
            r.project_root@ == project_root@,
            r.api_key is None,
            r.jwt is None,
            r.app_version is None,
            r.ls_version is None,
            r.max_turns == 4,
            r.max_commands == 8,
            r.max_results == 10,
            r.tree_depth == 4,
            r.timeout_ms == 30_000,
            r.path_filter@ == crate::path_filter::default_policy(),
            r.result_max_lines is None,
            r.line_max_chars is None,
    {
        SearchOptions {
            query: text::copied(query),
            project_root: text::copied(project_root),
            api_key: None,
            jwt: None,
            app_version: None,
            ls_version: None,
            max_turns: 4,
            max_commands: 8,
            max_results: 10,
            tree_depth: 4,
            timeout_ms: 30_000,
            path_filter: PathFilterConfig::default(),
            result_max_lines: None,
            line_max_chars: None,
        }
    }
}

/// What a look at the credentials found.
#[derive(Debug, Clone, PartialEq, Eq)]
pub struct AuthCheck {
    pub ok: bool,
    pub error_code: Option<String>,
    pub error: Option<String>,
    pub jwt_source: String,
    pub app_version: String,
    pub ls_version: String,
}

} // verus!
