//! A static file server: maps a request path onto a directory, answers with
//! the file (buffered when small, streamed when large) or, when enabled, a
//! listing of a directory.
use crate::plugin::{
    text_response, HandleOutcome, HttpResponse, State, ProxyPlugin, ProxyPluginCategory, ProxyPluginStep,
    STATUS_BAD_REQUEST, STATUS_INTERNAL_ERROR, STATUS_NOT_FOUND, STATUS_OK,
};
use crate::text::{
    char_slice, form_pairs, form_pairs_of, opt_view, pairs_view, parse_unsigned,
    parse_unsigned_bounded, radix_digits, find_char, first_at, radix_text, lemma_radix_digits_injective, lemma_radix_digits_no_dash, str_eq, substring,
};
use vstd::prelude::*;
use vstd::utf8::encode_utf8;

verus! {

/// The query of `s` read as a URL, "" when it has none; `None` when `s` is
/// no URL.
pub uninterp spec fn url_query_of(s: Seq<char>) -> Option<Seq<char>>;

/// Relies on `url::Url::parse` and `Url::query`: whether `s` parses as a URL,
/// and its query string, which only a `?` starts.
#[verifier::external_body]
fn url_query(s: &str) -> (r: Option<String>)
    ensures
        opt_view(r) == url_query_of(s@),
        !s@.contains('?') ==> (opt_view(r) is None || opt_view(r) == Some(Seq::<char>::empty())),
{
    url::Url::parse(s).ok().map(|u| u.query().unwrap_or_default().to_string())
}

/// `s` with its percent escapes decoded; `None` when the result is no UTF-8.
pub uninterp spec fn percent_decoded_of(s: Seq<char>) -> Option<Seq<char>>;

/// Relies on `urlencoding::decode`: the percent-decoded text, which is `s`
/// itself when `s` holds no `%`.
#[verifier::external_body]
fn percent_decode(s: &str) -> (r: Option<String>)
    ensures
        opt_view(r) == percent_decoded_of(s@),
        !s@.contains('%') ==> opt_view(r) == Some(s@),
{
    urlencoding::decode(s).ok().map(|d| d.into_owned())
}

/// The media type guessed from the extension of `path`.
pub uninterp spec fn mime_of(path: Seq<char>) -> Seq<char>;

/// Relies on `mime_guess::from_path(..).first_or_octet_stream()`: the media
/// type for the file name's extension, `application/octet-stream` when it is
/// unknown.
#[verifier::external_body]
fn guess_mime(path: &str) -> (r: String)
    ensures
        r@ == mime_of(path@),
{
    mime_guess::from_path(path).first_or_octet_stream().to_string()
}

/// A byte count written for people ("1.2 KB").
pub uninterp spec fn byte_size_text_of(n: nat) -> Seq<char>;

/// Relies on `bytesize::ByteSize`'s `Display`: `n` bytes in a readable unit.
#[verifier::external_body]
fn byte_size_text(n: u64) -> (r: String)
    ensures
        r@ == byte_size_text_of(n as nat),
{
    bytesize::ByteSize(n).to_string()
}

/// Serves files, and optionally listings, from a directory.
pub struct Directory {
    /// The directory served.
    pub path: String,
    /// What an empty request path stands for, with a leading `/`.
    pub index: String,
    /// Whether directories are listed.
    pub autoindex: bool,
    /// The size of the pieces in which large files are written.
    pub chunk_size: Option<usize>,
    /// The `max-age` of the responses' cache control.
    pub max_age: Option<u32>,
    /// Whether the responses' cache control is `private`.
    pub cache_private: Option<bool>,
    /// The charset named in the content type of text files.
    pub charset: Option<String>,
    pub proxy_step: ProxyPluginStep,
}

/// The options that a configuration's query sets.
pub struct OptionsModel {
    pub chunk_size: Option<nat>,
    pub max_age: Option<nat>,
    pub cache_private: bool,
    pub autoindex: bool,
    pub index: Seq<char>,
    pub charset: Option<Seq<char>>,
}

pub open spec fn default_options() -> OptionsModel {
    OptionsModel {
        chunk_size: None,
        max_age: None,
        cache_private: false,
        autoindex: false,
        index: "index.html"@,
        charset: None,
    }
}

/// One option applied; a value that does not parse, and an unknown name,
/// change nothing.
pub open spec fn apply_option(o: OptionsModel, name: Seq<char>, value: Seq<char>) -> OptionsModel {
    if name == "chunk_size"@ {
        match parse_unsigned(value, usize::MAX as nat) {
            Some(n) => OptionsModel { chunk_size: Some(n), ..o },
            None => o,
        }
    } else if name == "max_age"@ {
        match parse_unsigned(value, u32::MAX as nat) {
            Some(n) => OptionsModel { max_age: Some(n), ..o },
            None => o,
        }
    } else if name == "autoindex"@ {
        OptionsModel { autoindex: true, ..o }
    } else if name == "private"@ {
        OptionsModel { cache_private: true, ..o }
    } else if name == "index"@ {
        OptionsModel { index: value, ..o }
    } else if name == "charset"@ {
        OptionsModel { charset: Some(value), ..o }
    } else {
        o
    }
}

/// The options of a directory server, as read from its configuration.
pub struct DirectoryOptions {
    pub chunk_size: Option<usize>,
    pub max_age: Option<u32>,
    pub cache_private: Option<bool>,
    pub autoindex: bool,
    /// The index file, without a leading `/`.
    pub index: String,
    pub charset: Option<String>,
}

impl DirectoryOptions {
    /// These options are the ones `o` describes.
    pub open spec fn models(&self, o: OptionsModel) -> bool {
        &&& self.index@ == o.index
        &&& self.autoindex == o.autoindex
        &&& opt_nat_usize(self.chunk_size) == o.chunk_size
        &&& opt_nat_u32(self.max_age) == o.max_age
        &&& self.cache_private == (if o.cache_private { Some(true) } else { None })
        &&& opt_view(self.charset) == o.charset
    }
}

/// Reads the options from the configuration's query pairs, in order: a later
/// pair overrides an earlier one, and unknown names and values that do not
/// parse are passed over.
pub fn parse_options(pairs: &Vec<(String, String)>) -> (r: DirectoryOptions)
    ensures
        r.models(options_of(pairs_view(pairs@))),
{
    let ghost pv = pairs_view(pairs@);
    let mut chunk_size: Option<usize> = None;
    let mut max_age: Option<u32> = None;
    let mut cache_private: Option<bool> = None;
    let mut index_file = "index.html".to_string();
    let mut charset: Option<String> = None;
    let mut autoindex = false;
    let mut i: usize = 0;
    assert(pv.subrange(0, 0) =~= Seq::<(Seq<char>, Seq<char>)>::empty());
    while i < pairs.len()
        invariant
            i <= pairs@.len(),
            pv == pairs_view(pairs@),
            ({
                let o = options_of(pv.subrange(0, i as int));
                &&& index_file@ == o.index
                &&& autoindex == o.autoindex
                &&& opt_nat_usize(chunk_size) == o.chunk_size
                &&& opt_nat_u32(max_age) == o.max_age
                &&& cache_private == (if o.cache_private { Some(true) } else { None })
                &&& opt_view(charset) == o.charset
            }),
        decreases pairs@.len() - i,
    {
        assert(pv.subrange(0, i + 1).drop_last() =~= pv.subrange(0, i as int));
        assert(pv.subrange(0, i + 1).last() == pv[i as int]);
        let key = pairs[i].0.as_str();
        let v = pairs[i].1.as_str();
        if str_eq(key, "chunk_size", false) {
            if let Some(c) = parse_unsigned_bounded(v, usize::MAX as u64) {
                chunk_size = Some(c as usize);
            }
        } else if str_eq(key, "max_age", false) {
            if let Some(m) = parse_unsigned_bounded(v, 0xffff_ffff) {
                max_age = Some(m as u32);
            }
        } else if str_eq(key, "autoindex", false) {
            autoindex = true;
        } else if str_eq(key, "private", false) {
            cache_private = Some(true);
        } else if str_eq(key, "index", false) {
            index_file = v.to_string();
        } else if str_eq(key, "charset", false) {
            charset = Some(v.to_string());
        }
        i = i + 1;
    }
    assert(pv.subrange(0, pairs@.len() as int) =~= pv);
    DirectoryOptions { chunk_size, max_age, cache_private, autoindex, index: index_file, charset }
}

/// The options that the pairs set, each applied in turn.
pub open spec fn options_of(pairs: Seq<(Seq<char>, Seq<char>)>) -> OptionsModel
    decreases pairs.len(),
{
    if pairs.len() == 0 {
        default_options()
    } else {
        apply_option(options_of(pairs.drop_last()), pairs.last().0, pairs.last().1)
    }
}

pub open spec fn file_scheme() -> Seq<char> {
    "file://"@
}

/// The configuration as a `file://` URL.
pub open spec fn with_scheme(value: Seq<char>) -> Seq<char> {
    if value.len() >= 7 && value.subrange(0, 7) == file_scheme() {
        value
    } else {
        file_scheme() + value
    }
}

/// The query that the configuration carries, "" when none.
pub open spec fn config_query(value: Seq<char>) -> Seq<char> {
    match url_query_of(with_scheme(value)) {
        Some(q) => q,
        None => Seq::empty(),
    }
}

/// The configured directory, before home expansion: the text between the
/// scheme and the first `?`, percent-decoded when that succeeds.
pub open spec fn config_root(value: Seq<char>) -> Seq<char> {
    let full = with_scheme(value);
    let path = before_char(full, '?');
    let raw = char_slice(path, 7, path.len() as int);
    match percent_decoded_of(raw) {
        Some(d) => d,
        None => raw,
    }
}

/// The text of `s` before its first `c`; all of `s` when it has none.
pub open spec fn before_char(s: Seq<char>, c: char) -> Seq<char> {
    if s.contains(c) {
        s.subrange(0, choose|i: int| first_at(s, c, i))
    } else {
        s
    }
}

/// `path` with a leading `~` replaced by the home directory, when known.
pub open spec fn expand_home(path: Seq<char>, home: Option<Seq<char>>) -> Seq<char> {
    match home {
        Some(h) => if path.len() > 0 && path[0] == '~' {
            h + path.drop_first()
        } else {
            path
        },
        None => path,
    }
}

pub open spec fn opt_nat_usize(o: Option<usize>) -> Option<nat> {
    match o {
        Some(v) => Some(v as nat),
        None => None,
    }
}

pub open spec fn opt_nat_u32(o: Option<u32>) -> Option<nat> {
    match o {
        Some(v) => Some(v as nat),
        None => None,
    }
}

/// Replaces a leading `~` in `path` by `home`.
pub fn resolve_path(path: &str, home: Option<&str>) -> (r: String)
    ensures
        r@ == expand_home(path@, match home {
            Some(h) => Some(h@),
            None => None,
        }),
{
    match home {
        Some(h) => {
            let n = path.unicode_len();
            if n > 0 && path.get_char(0) == '~' {
                let rest = path.substring_char(1, n);
                let r = h.to_string().concat(rest);
                assert(rest@ =~= path@.drop_first());
                r
            } else {
                path.to_string()
            }
        },
        None => path.to_string(),
    }
}

fn opt_to_string(o: &Option<String>) -> (r: Option<String>)
    ensures
        opt_view(r) == opt_view(*o),
{
    match o {
        Some(v) => Some(v.clone()),
        None => None,
    }
}

impl Directory {
    /// Reads `[file://]<path>[?options]`; see [`Directory::with_home`]. A
    /// leading `~` is kept as it is.
    pub fn new(value: &str, proxy_step: ProxyPluginStep) -> (r: Directory)
        ensures
            r.matches_config(value@, None, proxy_step),
    {
        Directory::with_home(value, proxy_step, None)
    }

    /// What a directory built from `value` holds: the root and the options
    /// of the configuration.
    pub open spec fn matches_config(
        &self,
        value: Seq<char>,
        home: Option<Seq<char>>,
        proxy_step: ProxyPluginStep,
    ) -> bool {
        let o = options_of(form_pairs_of(config_query(value)));
        &&& self.path@ == expand_home(config_root(value), home)
        &&& self.index@ == seq!['/'] + o.index
        &&& self.autoindex == o.autoindex
        &&& opt_nat_usize(self.chunk_size) == o.chunk_size
        &&& opt_nat_u32(self.max_age) == o.max_age
        &&& self.cache_private == (if o.cache_private { Some(true) } else { None })
        &&& opt_view(self.charset) == o.charset
        &&& self.proxy_step == proxy_step
    }

    /// Reads `[file://]<path>[?options]`: the options `chunk_size`,
    /// `max_age`, `autoindex`, `private`, `index` and `charset` are taken
    /// from the query, a value that does not parse and an unknown option are
    /// passed over, and a leading `~` of the path becomes `home`.
    pub fn with_home(value: &str, proxy_step: ProxyPluginStep, home: Option<&str>) -> (r: Directory)
        ensures
            r.matches_config(value@, match home {
                Some(h) => Some(h@),
                None => None,
            }, proxy_step),
            !with_scheme(value@).contains('?') ==> !r.autoindex && r.index@ == "/index.html"@
                && r.chunk_size is None && r.max_age is None && r.cache_private is None
                && r.charset is None,
    {
        let scheme = "file://";
        proof {
            reveal_strlit("file://");
        }
        let n = value.unicode_len();
        let full = if n >= 7 && str_eq(value.substring_char(0, 7), scheme, false) {
            value.to_string()
        } else {
            scheme.to_string().concat(value)
        };
        assert(full@ == with_scheme(value@));
        let parsed = url_query(full.as_str());
        let query = match parsed {
            Some(q) => q,
            None => String::new(),
        };
        assert(!full@.contains('?') ==> query@.len() == 0);
        assert(query@ == config_query(value@));
        let cut = match find_char(full.as_str(), '?') {
            Some(i) => {
                proof {
                    let j = choose|j: int| first_at(full@, '?', j);
                    if j < i {
                        assert(full@[j] == '?');
                    } else if j > i {
                        assert(full@[i as int] == '?');
                    }
                }
                i
            },
            None => full.unicode_len(),
        };
        let path = full.as_str().substring_char(0, cut);
        assert(path@ =~= before_char(full@, '?'));
        let raw = substring(path, 7, path.unicode_len());
        let root = match percent_decode(raw.as_str()) {
            Some(d) => d,
            None => raw,
        };
        assert(root@ == config_root(value@));
        let pairs = form_pairs(query.as_str());
        let options = parse_options(&pairs);
        let slash = "/";
        proof {
            reveal_strlit("/");
        }
        let index = slash.to_string().concat(options.index.as_str());
        assert(index@ =~= seq!['/'] + options.index@);
        proof {
            if !full@.contains('?') {
                assert(query@.len() == 0);
                assert(pairs_view(pairs@) =~= Seq::<(Seq<char>, Seq<char>)>::empty());
                reveal_strlit("index.html");
                reveal_strlit("/index.html");
                assert(index@ =~= "/index.html"@);
            }
        }
        Directory {
            path: resolve_path(root.as_str(), home),
            index,
            autoindex: options.autoindex,
            chunk_size: options.chunk_size,
            max_age: options.max_age,
            cache_private: options.cache_private,
            charset: options.charset,
            proxy_step,
        }
    }

    /// Whether the target is answered with a listing: listings are on and it
    /// is a directory.
    pub fn lists(&self, target_is_dir: bool) -> (r: bool)
        ensures
            r == (self.autoindex && target_is_dir),
    {
        self.autoindex && target_is_dir
    }

    /// The file that a request path names: the index when listings are off
    /// and the path is the root, else the path itself.
    pub open spec fn request_file_of(&self, path: Seq<char>) -> Seq<char> {
        if !self.autoindex && path.len() <= 1 {
            self.index@
        } else {
            path
        }
    }

    /// Where on disk a request path leads: its file, percent-decoded when
    /// that succeeds, without its first character, below the root.
    pub open spec fn target_of(&self, path: Seq<char>) -> Seq<char> {
        let f = self.request_file_of(path);
        let d = match percent_decoded_of(f) {
            Some(d) => d,
            None => f,
        };
        path_join(self.path@, char_slice(d, 1, d.len() as int))
    }

    /// The filesystem path that the request path `path` leads to.
    pub fn target(&self, path: &str) -> (r: String)
        ensures
            r@ == self.target_of(path@),
            !self.request_file_of(path@).contains('%') ==> r@ == path_join(
                self.path@,
                char_slice(
                    self.request_file_of(path@),
                    1,
                    self.request_file_of(path@).len() as int,
                ),
            ),
    {
        let filename = if !self.autoindex && path.unicode_len() <= 1 {
            self.index.clone()
        } else {
            path.to_string()
        };
        let decoded = match percent_decode(filename.as_str()) {
            Some(d) => d,
            None => filename,
        };
        let rel = substring(decoded.as_str(), 1, decoded.unicode_len());
        join_path(self.path.as_str(), rel.as_str())
    }

    /// The headers and cache facts of a file; see
    /// [`get_cacheable_and_headers_from_meta`].
    pub open spec fn file_headers_of(
        &self,
        file: Seq<char>,
        size: nat,
        modified_secs: Option<u64>,
    ) -> (bool, Seq<(Seq<char>, Seq<char>)>) {
        let ct = content_type_of(mime_of(file), opt_view(self.charset));
        (mime_of(file) != "text/html"@, file_headers(ct, size, modified_secs))
    }

    /// How a file that opened is answered: at most [`BUFFER_LIMIT`] bytes in
    /// one buffered response, more in a stream whose `max-age` is set only
    /// when the content may be cached.
    pub fn file_reply(&self, file: &str, size: u64, modified_secs: Option<u64>) -> (r: FileReply)
        ensures
            size <= BUFFER_LIMIT ==> (r matches FileReply::Buffered { headers, size: s } && s
                == size && pairs_view(headers@) == self.file_headers_of(file@, size as nat, modified_secs).1),
            size > BUFFER_LIMIT ==> (r matches FileReply::Streamed(plan) && plan.chunk_size
                == self.chunk_size && plan.cache_private == self.cache_private && plan.max_age == (
            if self.file_headers_of(file@, size as nat, modified_secs).0 {
                self.max_age
            } else {
                None
            }) && pairs_view(plan.headers@) == self.file_headers_of(file@, size as nat, modified_secs).1),
    {
        let (cacheable, _, headers) = get_cacheable_and_headers_from_meta(
            file,
            size,
            modified_secs,
            &self.charset,
        );
        if size <= BUFFER_LIMIT {
            FileReply::Buffered { headers, size }
        } else {
            FileReply::Streamed(
                StreamPlan {
                    chunk_size: self.chunk_size,
                    max_age: if cacheable { self.max_age } else { None },
                    cache_private: self.cache_private,
                    headers,
                },
            )
        }
    }

    /// The buffered answer for a small file: status 200, the directory's
    /// cache directives, the file's headers and its bytes.
    pub fn buffered_response(&self, headers: Vec<(String, String)>, body: Vec<u8>) -> (r: HttpResponse)
        ensures
            r.status == STATUS_OK,
            r.max_age == self.max_age,
            r.cache_private == self.cache_private,
            r.headers@ == headers@,
            r.body@ == body@,
    {
        HttpResponse {
            status: STATUS_OK,
            max_age: self.max_age,
            cache_private: self.cache_private,
            headers,
            body,
        }
    }
}

impl ProxyPlugin for Directory {
    fn step(&self) -> (r: ProxyPluginStep)
        ensures
            r == self.proxy_step,
    {
        self.proxy_step
    }

    fn category(&self) -> (r: ProxyPluginCategory)
        ensures
            r == ProxyPluginCategory::Directory,
    {
        ProxyPluginCategory::Directory
    }
}

/// Files up to this many bytes are answered in one buffered response.
pub const BUFFER_LIMIT: u64 = 4096;

/// How a large file is streamed.
pub struct StreamPlan {
    /// The size of each write; the writer's default when `None`.
    pub chunk_size: Option<usize>,
    pub max_age: Option<u32>,
    pub cache_private: Option<bool>,
    pub headers: Vec<(String, String)>,
}

/// How an opened file is answered.
pub enum FileReply {
    /// Read all `size` bytes and answer with [`Directory::buffered_response`].
    Buffered { headers: Vec<(String, String)>, size: u64 },
    /// Stream the file.
    Streamed(StreamPlan),
}

/// `rel` appended to `base` as a path: an absolute `rel` replaces `base`,
/// and a separator is put between two non-empty parts that lack one.
pub open spec fn path_join(base: Seq<char>, rel: Seq<char>) -> Seq<char> {
    if rel.len() > 0 && rel[0] == '/' {
        rel
    } else if base.len() == 0 {
        rel
    } else if base.last() == '/' {
        base + rel
    } else {
        base + seq!['/'] + rel
    }
}

/// Joins two filesystem paths as `Path::join` does.
pub fn join_path(base: &str, rel: &str) -> (r: String)
    ensures
        r@ == path_join(base@, rel@),
{
    proof {
        reveal_strlit("/");
    }
    let bn = base.unicode_len();
    if rel.unicode_len() > 0 && rel.get_char(0) == '/' {
        rel.to_string()
    } else if bn == 0 {
        rel.to_string()
    } else if base.get_char(bn - 1) == '/' {
        base.to_string().concat(rel)
    } else {
        let r = base.to_string().concat("/").concat(rel);
        assert(r@ =~= base@ + seq!['/'] + rel@);
        r
    }
}

pub open spec fn starts_with(s: Seq<char>, t: Seq<char>) -> bool {
    t.len() <= s.len() && s.subrange(0, t.len() as int) == t
}

/// The content type of a file: its media type, with the charset added to
/// text types.
pub open spec fn content_type_of(mime: Seq<char>, charset: Option<Seq<char>>) -> Seq<char> {
    match charset {
        Some(c) => if starts_with(mime, "text/"@) {
            mime + "; charset="@ + c
        } else {
            mime
        },
        None => mime,
    }
}

/// The weak validator of a file of `size` bytes last changed at `secs`.
pub open spec fn etag_of(size: nat, secs: nat) -> Seq<char> {
    "W/\""@ + radix_digits(size, 16) + "-"@ + radix_digits(secs, 16) + "\""@
}

/// The headers of a file: its content type, and its validator when its
/// modification time is known and after the epoch.
pub open spec fn file_headers(ct: Seq<char>, size: nat, modified_secs: Option<u64>) -> Seq<
    (Seq<char>, Seq<char>),
> {
    let first = seq![("content-type"@, ct)];
    match modified_secs {
        Some(secs) => if secs > 0 {
            first.push(("etag"@, etag_of(size, secs as nat)))
        } else {
            first
        },
        None => first,
    }
}

/// Whether a file may be cached, its size, and its headers, from its name,
/// size and modification time (seconds since the epoch).
pub fn get_cacheable_and_headers_from_meta(
    file: &str,
    size: u64,
    modified_secs: Option<u64>,
    charset: &Option<String>,
) -> (r: (bool, u64, Vec<(String, String)>))
    ensures
        r.0 == (mime_of(file@) != "text/html"@),
        r.1 == size,
        pairs_view(r.2@) == file_headers(
            content_type_of(mime_of(file@), opt_view(*charset)),
            size as nat,
            modified_secs,
        ),
{
    proof {
        reveal_strlit("text/");
        reveal_strlit("; charset=");
    }
    let mime = guess_mime(file);
    let cacheable = !str_eq(mime.as_str(), "text/html", false);
    let mut value = mime.clone();
    if let Some(cs) = charset {
        if mime.unicode_len() >= 5 && str_eq(mime.as_str().substring_char(0, 5), "text/", false) {
            value = mime.concat("; charset=").concat(cs.as_str());
        }
    }
    assert(value@ == content_type_of(mime_of(file@), opt_view(*charset)));
    let mut headers: Vec<(String, String)> = Vec::new();
    headers.push(("content-type".to_string(), value));
    if let Some(secs) = modified_secs {
        if secs > 0 {
            let etag = "W/\"".to_string().concat(radix_text(size, 16).as_str()).concat("-").concat(
                radix_text(secs, 16).as_str(),
            ).concat("\"");
            headers.push(("etag".to_string(), etag));
        }
    }
    assert(pairs_view(headers@) =~= file_headers(value@, size as nat, modified_secs));
    (cacheable, size, headers)
}

/// The answer when a file cannot be opened: 404 "Not Found" when it is
/// missing or a directory, else a server error that carries the system's
/// message.
pub fn open_failure(not_found: bool, message: &str) -> (r: HttpResponse)
    ensures
        not_found ==> r.status == STATUS_NOT_FOUND && r.body@ == encode_utf8("Not Found"@),
        !not_found ==> r.status == STATUS_INTERNAL_ERROR && r.body@ == encode_utf8(message@),
        r.headers@.len() == 0,
{
    if not_found {
        text_response(STATUS_NOT_FOUND, "Not Found")
    } else {
        text_response(STATUS_INTERNAL_ERROR, message)
    }
}

/// Records in the request's state a file that was streamed: status 200 and
/// the bytes written; nothing is left for the pipeline to write.
pub fn finish_streamed(ctx: &mut State, written: usize) -> (r: HandleOutcome)
    ensures
        final(ctx).status == Some(STATUS_OK),
        final(ctx).response_body_size == written,
        final(ctx).client_ip == old(ctx).client_ip,
        final(ctx).guard == old(ctx).guard,
        r is AlreadyWritten,
{
    ctx.status = Some(STATUS_OK);
    ctx.response_body_size = written;
    HandleOutcome::AlreadyWritten
}

/// One entry of a listed directory.
pub struct DirEntry {
    /// The entry's path, starting with the listed directory's.
    pub path: String,
    /// The entry's file name.
    pub name: String,
    /// The size of a file whose metadata could be read.
    pub size: Option<u64>,
}

pub const PAGE_HEAD: &'static str = "<!doctype html>
<html lang=\"en\">
    <head>
        <meta charset=\"utf-8\" />
        <style>
            * {
                margin: 0;
                padding: 0;
            }
            li {
                line-height: 30px;
                padding: 3px 10px;
                list-style: none;
                background-color: #fefefe;
            }
            li:nth-child(odd) {
                background-color: #f0f0f0;
            }
            a {
                color: #333;
            }
            .size {
                margin-left: 30px;
            }
        </style>
    </head>
    <body>
        <ul>
        ";

pub const PAGE_TAIL: &'static str = "
        </ul>
    </body>
</html>
";

/// An entry is listed unless its name is empty or starts with a dot.
pub open spec fn visible(name: Seq<char>) -> bool {
    name.len() > 0 && name[0] != '.'
}

pub open spec fn size_text_of(size: Option<u64>) -> Seq<char> {
    match size {
        Some(n) => byte_size_text_of(n as nat),
        None => Seq::empty(),
    }
}

/// The listing row of an entry of directory `dir`: a link relative to the
/// directory, and the size.
pub open spec fn row_of(dir: Seq<char>, e: DirEntry) -> Seq<char> {
    "<li><a href=\"./"@ + char_slice(e.path@, dir.len() as int, e.path@.len() as int) + "\">"@
        + e.name@ + "</a><span class=\"size\">"@ + size_text_of(e.size) + "</span></li>"@
}

/// The rows of the visible entries, in order.
pub open spec fn rows_of(dir: Seq<char>, es: Seq<DirEntry>) -> Seq<Seq<char>>
    decreases es.len(),
{
    if es.len() == 0 {
        Seq::empty()
    } else if visible(es.last().name@) {
        rows_of(dir, es.drop_last()).push(row_of(dir, es.last()))
    } else {
        rows_of(dir, es.drop_last())
    }
}

/// The entries whose names are visible.
pub open spec fn visible_count(es: Seq<DirEntry>) -> nat
    decreases es.len(),
{
    if es.len() == 0 {
        0
    } else {
        visible_count(es.drop_last()) + if visible(es.last().name@) {
            1nat
        } else {
            0nat
        }
    }
}

/// Lines joined with newlines.
pub open spec fn join_lines(rows: Seq<Seq<char>>) -> Seq<char>
    decreases rows.len(),
{
    if rows.len() == 0 {
        Seq::empty()
    } else if rows.len() == 1 {
        rows[0]
    } else {
        join_lines(rows.drop_last()) + "\n"@ + rows.last()
    }
}

/// The listing page of directory `dir` with entries `es`.
pub open spec fn listing_of(dir: Seq<char>, es: Seq<DirEntry>) -> Seq<char> {
    PAGE_HEAD@ + join_lines(rows_of(dir, es)) + PAGE_TAIL@
}

fn has_visible_name(name: &str) -> (r: bool)
    ensures
        r == visible(name@),
{
    name.unicode_len() > 0 && name.get_char(0) != '.'
}

/// The listing page of directory `dir`, whose entries are `entries`.
pub fn get_autoindex_html(dir: &str, entries: &Vec<DirEntry>) -> (r: String)
    ensures
        r@ == listing_of(dir@, entries@),
{
    proof {
        reveal_strlit("\n");
        reveal_strlit("<li><a href=\"./");
        reveal_strlit("\">");
        reveal_strlit("</a><span class=\"size\">");
        reveal_strlit("</span></li>");
    }
    let dir_len = dir.unicode_len();
    let mut content = String::new();
    let mut count: usize = 0;
    let mut i: usize = 0;
    while i < entries.len()
        invariant
            i <= entries@.len(),
            dir_len == dir@.len(),
            count == rows_of(dir@, entries@.subrange(0, i as int)).len(),
            count <= i,
            content@ == join_lines(rows_of(dir@, entries@.subrange(0, i as int))),
        decreases entries@.len() - i,
    {
        let ghost before = entries@.subrange(0, i as int);
        let ghost after = entries@.subrange(0, i + 1);
        assert(after.drop_last() =~= before);
        assert(after.last() == entries@[i as int]);
        let e = &entries[i];
        if has_visible_name(e.name.as_str()) {
            let target = substring(e.path.as_str(), dir_len, e.path.unicode_len());
            let size = match e.size {
                Some(n) => byte_size_text(n),
                None => String::new(),
            };
            let row = "<li><a href=\"./".to_string().concat(target.as_str()).concat("\">").concat(
                e.name.as_str(),
            ).concat("</a><span class=\"size\">").concat(size.as_str()).concat("</span></li>");
            assert(row@ == row_of(dir@, entries@[i as int]));
            let ghost rb = rows_of(dir@, before);
            assert(rows_of(dir@, after) == rb.push(row@));
            assert(rb.push(row@).drop_last() =~= rb);
            if count > 0 {
                content = content.concat("\n").concat(row.as_str());
            } else {
                content = row;
            }
            count = count + 1;
        }
        i = i + 1;
    }
    assert(entries@.subrange(0, entries@.len() as int) =~= entries@);
    let page = PAGE_HEAD.to_string().concat(content.as_str()).concat(PAGE_TAIL);
    page
}

/// The answer for a directory listing: the page, or 400 with the reason the
/// directory could not be read.
pub fn listing_response(listing: Result<String, String>) -> (r: HttpResponse)
    ensures
        listing matches Ok(html) ==> r.status == STATUS_OK && r.body@ == encode_utf8(html@)
            && r.headers@.len() == 0,
        listing matches Err(e) ==> r.status == STATUS_BAD_REQUEST && r.body@ == encode_utf8(e@),
{
    match listing {
        Ok(html) => text_response(STATUS_OK, html.as_str()),
        Err(e) => text_response(STATUS_BAD_REQUEST, e.as_str()),
    }
}

/// `row` is the listing row of a visible entry of `es`.
pub open spec fn is_visible_row(dir: Seq<char>, es: Seq<DirEntry>, row: Seq<char>) -> bool {
    exists|j: int| 0 <= j < es.len() && visible(es[j].name@) && row == row_of(dir, #[trigger] es[j])
}

/// A listing holds one row for each visible entry, and every row is the
/// row of a visible entry: entries whose names are empty or start with a dot
/// are not listed.
pub proof fn lemma_listing_rows(dir: Seq<char>, es: Seq<DirEntry>)
    ensures
        rows_of(dir, es).len() == visible_count(es),
        forall|i: int|
            0 <= i < rows_of(dir, es).len() ==> is_visible_row(dir, es, #[trigger] rows_of(dir, es)[i]),
    decreases es.len(),
{
    if es.len() > 0 {
        let prev = es.drop_last();
        lemma_listing_rows(dir, prev);
        assert forall|i: int| 0 <= i < rows_of(dir, es).len() implies is_visible_row(
            dir,
            es,
            #[trigger] rows_of(dir, es)[i],
        ) by {
            if i < rows_of(dir, prev).len() {
                assert(rows_of(dir, es)[i] == rows_of(dir, prev)[i]);
                assert(is_visible_row(dir, prev, rows_of(dir, prev)[i]));
                let j = choose|j: int|
                    0 <= j < prev.len() && visible(prev[j].name@) && rows_of(dir, prev)[i]
                        == row_of(dir, #[trigger] prev[j]);
                assert(prev[j] == es[j]);
            } else {
                assert(es[es.len() - 1] == es.last());
            }
        }
    }
}

/// A file's validator is determined by its size and modification time, and
/// two files with different sizes or times have different validators.
pub proof fn lemma_etag_determined(size1: nat, secs1: nat, size2: nat, secs2: nat)
    ensures
        etag_of(size1, secs1) == etag_of(size2, secs2) <==> (size1 == size2 && secs1 == secs2),
{
    if etag_of(size1, secs1) == etag_of(size2, secs2) {
        reveal_strlit("W/\"");
        reveal_strlit("-");
        reveal_strlit("\"");
        let e = etag_of(size1, secs1);
        let (a1, b1) = (radix_digits(size1, 16), radix_digits(secs1, 16));
        let (l1, l2): (int, int) = (radix_digits(size1, 16).len() as int, radix_digits(size2, 16).len() as int);
        let (a2, b2) = (radix_digits(size2, 16), radix_digits(secs2, 16));
        lemma_radix_digits_no_dash(size1, 16);
        lemma_radix_digits_no_dash(size2, 16);
        assert(e == "W/\""@ + a1 + "-"@ + b1 + "\""@);
        assert(e == "W/\""@ + a2 + "-"@ + b2 + "\""@);
        assert(e[3 + l1] == '-');
        assert(e[3 + l2] == '-');
        if l1 < l2 {
            assert(e[3 + l1] == a2[l1]);
        } else if l2 < l1 {
            assert(e[3 + l2] == a1[l2]);
        }
        assert(a1 =~= e.subrange(3, 3 + l1));
        assert(a2 =~= e.subrange(3, 3 + l2));
        assert(b1 =~= e.subrange(4 + l1, e.len() - 1));
        assert(b2 =~= e.subrange(4 + l2, e.len() - 1));
        lemma_radix_digits_injective(size1, size2, 16);
        lemma_radix_digits_injective(secs1, secs2, 16);
    }
}

} // verus!
