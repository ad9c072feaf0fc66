//! The WebDAV client: what each request to a Nextcloud server looks like and
//! what each answer means. Sending the requests is left to the caller.

use vstd::prelude::*;
use vstd::utf8::*;
use vstd::string::*;
use base64::Engine;
use crate::text::{
    decimal, from_chars, push_all, push_decimal, str_is, to_chars, trim_chars, trim_char,
    trim_end_char, trim_end_chars, trim_start_char, trim_start_chars,
};
use crate::urlcode::{
    count_of, encode_path, law_decode_inverts_encode_path, law_path_encode_keeps_separators, path_encode, url_decode,
};

verus! {

/// An entry of a remote directory listing.
#[derive(Debug, Clone)]
pub struct RemoteItem {
    pub name: String,
    pub is_dir: bool,
    pub size: u64,
}

/// What went wrong talking to the server.
#[derive(Debug, Clone)]
pub enum WebDAVError {
    Http(String),
    Parse(String),
    Io(String),
}

/// The text shown for an error.
pub open spec fn error_text(e: WebDAVError) -> Seq<char> {
    match e {
        WebDAVError::Http(m) => "HTTP error: "@ + m@,
        WebDAVError::Parse(m) => "Parse error: "@ + m@,
        WebDAVError::Io(m) => "IO error: "@ + m@,
    }
}

/// Builds the string `prefix` followed by `rest`.
pub fn concat_str(prefix: &str, rest: &str) -> (r: String)
    ensures
        r@ == prefix@ + rest@,
{
    let mut v = to_chars(prefix);
    let w = to_chars(rest);
    push_all(&mut v, w.as_slice());
    from_chars(v.as_slice())
}

/// Builds the string `prefix` followed by the decimal digits of `n`.
pub fn prefixed_number(prefix: &str, n: u64) -> (r: String)
    ensures
        r@ == prefix@ + decimal(n as nat),
{
    let mut v = to_chars(prefix);
    push_decimal(&mut v, n);
    from_chars(v.as_slice())
}

impl WebDAVError {
    /// The text shown for this error ("HTTP error: ...", "Parse error: ...",
    /// "IO error: ...").
    pub fn message(&self) -> (r: String)
        ensures
            r@ == error_text(*self),
    {
        match self {
            WebDAVError::Http(m) => concat_str("HTTP error: ", m.as_str()),
            WebDAVError::Parse(m) => concat_str("Parse error: ", m.as_str()),
            WebDAVError::Io(m) => concat_str("IO error: ", m.as_str()),
        }
    }
}

/// The kind of an HTTP request.
#[derive(Debug, Clone, Copy, PartialEq, Eq, Structural)]
pub enum HttpMethod {
    Propfind,
    Put,
    Mkcol,
    Delete,
    Get,
    Head,
}

/// The body that goes with a request.
#[derive(Debug, Clone, Copy, PartialEq, Eq, Structural)]
pub enum RequestBody {
    /// No body.
    Empty,
    /// A PROPFIND asking for the resource type only.
    PropfindResourceType,
    /// A PROPFIND asking for resource type, content length and display name.
    PropfindListing,
    /// The contents of the local file being uploaded.
    LocalFile,
}

/// A request to the server: method, URL, `Authorization` header, `Depth`
/// header (PROPFIND only) and body.
#[derive(Debug, Clone)]
pub struct HttpRequest {
    pub method: HttpMethod,
    pub url: String,
    pub authorization: String,
    pub depth: Option<u32>,
    pub body: RequestBody,
}

/// Connection settings of one Nextcloud account.
#[derive(Debug, Clone)]
pub struct WebDAVClient {
    server_url: String,
    username: String,
    app_password: String,
}

/// The character of the standard base64 alphabet (`A-Z a-z 0-9 + /`) for a
/// six-bit value.
pub open spec fn base64_digit(v: int) -> char {
    "ABCDEFGHIJKLMNOPQRSTUVWXYZabcdefghijklmnopqrstuvwxyz0123456789+/"@[v]
}

/// Standard base64 with `=` padding (RFC 4648, section 4): each three bytes
/// become four characters of six bits each; a last group of one or two bytes
/// is padded with `==` or `=`.
pub open spec fn base64_standard(bytes: Seq<u8>) -> Seq<char>
    decreases bytes.len(),
{
    if bytes.len() == 0 {
        seq![]
    } else if bytes.len() == 1 {
        let b0 = bytes[0] as int;
        seq![base64_digit(b0 / 4), base64_digit((b0 % 4) * 16), '=', '=']
    } else if bytes.len() == 2 {
        let b0 = bytes[0] as int;
        let b1 = bytes[1] as int;
        seq![base64_digit(b0 / 4), base64_digit((b0 % 4) * 16 + b1 / 16), base64_digit((b1 % 16) * 4), '=']
    } else {
        let b0 = bytes[0] as int;
        let b1 = bytes[1] as int;
        let b2 = bytes[2] as int;
        seq![
            base64_digit(b0 / 4),
            base64_digit((b0 % 4) * 16 + b1 / 16),
            base64_digit((b1 % 16) * 4 + b2 / 64),
            base64_digit(b2 % 64),
        ] + base64_standard(bytes.skip(3))
    }
}

/// `base64::engine::general_purpose::STANDARD.encode(bytes)`: the padded
/// standard base64 of `bytes` (see [`base64_standard`]). The encoder panics when the output
/// length overflows `usize` or its buffer would exceed `isize::MAX` bytes;
/// the bound on the input (output about 4/3 of it) rules both out.
#[verifier::external_body]
fn base64_encode(bytes: &[u8]) -> (r: String)
    requires
        bytes@.len() <= usize::MAX / 4,
    ensures
        r@ == base64_standard(bytes@),
{
    base64::engine::general_purpose::STANDARD.encode(bytes)
}

proof fn lemma_utf8_len(s: Seq<char>)
    ensures
        encode_utf8(s).len() <= 4 * s.len(),
    decreases s.len(),
{
    if s.len() > 0 {
        lemma_utf8_len(s.drop_first());
    }
}

/// The URL of the account's files: `{server}/remote.php/dav/files/{user}`.
pub open spec fn base_url_of(server: Seq<char>, user: Seq<char>) -> Seq<char> {
    server + "/remote.php/dav/files/"@ + user
}

/// The URL of a collection (a directory), always ending in `/`.
pub open spec fn collection_url_of(base: Seq<char>, remote_path: Seq<char>) -> Seq<char> {
    let path = trim_char(remote_path, '/');
    if path.len() == 0 {
        base + "/"@
    } else {
        base + "/"@ + path_encode(path) + "/"@
    }
}

/// The URL of a file or of a directory written without trailing `/`.
pub open spec fn resource_url_of(base: Seq<char>, remote_path: Seq<char>) -> Seq<char> {
    base + "/"@ + path_encode(trim_start_char(remote_path, '/'))
}

/// The URL MKCOL is sent to: the resource URL followed by `/`.
pub open spec fn mkcol_url_of(base: Seq<char>, remote_path: Seq<char>) -> Seq<char> {
    resource_url_of(base, remote_path) + "/"@
}

/// The path of entry `name` inside the remote directory `parent`.
pub open spec fn child_path_of(parent: Seq<char>, name: Seq<char>) -> Seq<char> {
    if parent == "/"@ || parent.len() == 0 {
        "/"@ + name
    } else {
        trim_end_char(parent, '/') + "/"@ + name
    }
}

/// The path of entry `name` inside the remote directory `parent`: `/name` at
/// the root, else `parent` without trailing `/`, a `/` and `name`.
pub fn child_path(parent: &str, name: &str) -> (r: String)
    ensures
        r@ == child_path_of(parent@, name@),
{
    let p = to_chars(parent);
    let n = to_chars(name);
    let root = str_is(parent, "/");
    if root || p.len() == 0 {
        let mut v = to_chars("/");
        push_all(&mut v, n.as_slice());
        from_chars(v.as_slice())
    } else {
        let mut v = trim_end_chars(p.as_slice(), '/');
        let slash = to_chars("/");
        push_all(&mut v, slash.as_slice());
        push_all(&mut v, n.as_slice());
        from_chars(v.as_slice())
    }
}

/// `r` is an HTTP error with text `m`.
pub open spec fn http_err<T>(r: Result<T, WebDAVError>, m: Seq<char>) -> bool {
    r matches Err(WebDAVError::Http(e)) && e@ == m
}

/// The status text "{what} returned status {status}".
pub open spec fn status_text(what: Seq<char>, status: u16) -> Seq<char> {
    what + " returned status "@ + decimal(status as nat)
}

fn status_error(what: &str, status: u16) -> (e: WebDAVError)
    ensures
        e matches WebDAVError::Http(m) && m@ == status_text(what@, status),
{
    let p = concat_str(what, " returned status ");
    let mut v = to_chars(p.as_str());
    push_decimal(&mut v, status as u64);
    WebDAVError::Http(from_chars(v.as_slice()))
}

impl WebDAVClient {
    /// The server URL, without trailing `/`.
    pub closed spec fn server(&self) -> Seq<char> {
        self.server_url@
    }

    /// The user name.
    pub closed spec fn user(&self) -> Seq<char> {
        self.username@
    }

    /// The app password.
    pub closed spec fn password(&self) -> Seq<char> {
        self.app_password@
    }

    /// The account base URL.
    pub open spec fn base(&self) -> Seq<char> {
        base_url_of(self.server(), self.user())
    }

    /// A client for `server_url` (trailing `/` removed), `username` and
    /// `app_password`.
    pub fn new(server_url: &str, username: &str, app_password: &str) -> (r: Self)
        ensures
            r.server() == trim_end_char(server_url@, '/'),
            r.user() == username@,
            r.password() == app_password@,
    {
        let s = to_chars(server_url);
        let t = trim_end_chars(s.as_slice(), '/');
        WebDAVClient {
            server_url: from_chars(t.as_slice()),
            username: String::from_str(username),
            app_password: String::from_str(app_password),
        }
    }

    /// `{server}/remote.php/dav/files/{user}`.
    pub fn base_url(&self) -> (r: String)
        ensures
            r@ == self.base(),
    {
        let a = concat_str(self.server_url.as_str(), "/remote.php/dav/files/");
        concat_str(a.as_str(), self.username.as_str())
    }

    /// The value of the `Authorization` header: `Basic ` and the base64 of
    /// `user:password`.
    pub fn auth_header(&self) -> (r: String)
        requires
            self.user().len() + self.password().len() < usize::MAX / 16,
        ensures
            r@ == "Basic "@ + base64_standard(encode_utf8(self.user() + ":"@ + self.password())),
    {
        let creds = concat_str(self.username.as_str(), ":");
        let creds = concat_str(creds.as_str(), self.app_password.as_str());
        let bytes = creds.as_str().as_bytes();
        proof {
            lemma_utf8_len(creds@);
            reveal_strlit(":");
        }
        let encoded = base64_encode(bytes);
        basic_auth_value(encoded.as_str())
    }

    fn request(&self, method: HttpMethod, url: String, depth: Option<u32>, body: RequestBody) -> (r: HttpRequest)
        requires
            self.user().len() + self.password().len() < usize::MAX / 16,
        ensures
            r.method == method,
            r.url == url,
            r.depth == depth,
            r.body == body,
            r.authorization@ == "Basic "@ + base64_standard(encode_utf8(self.user() + ":"@ + self.password())),
    {
        HttpRequest { method, url, authorization: self.auth_header(), depth, body }
    }

    /// The URL of the collection `remote_path` (PROPFIND).
    pub fn collection_url(&self, remote_path: &str) -> (r: String)
        ensures
            r@ == collection_url_of(self.base(), remote_path@),
    {
        let p = to_chars(remote_path);
        let path = trim_chars(p.as_slice(), '/');
        let base = self.base_url();
        if path.len() == 0 {
            concat_str(base.as_str(), "/")
        } else {
            let ps = from_chars(path.as_slice());
            let enc = encode_path(ps.as_str());
            let a = concat_str(base.as_str(), "/");
            let b = concat_str(a.as_str(), enc.as_str());
            concat_str(b.as_str(), "/")
        }
    }

    /// The URL of the file `remote_path` (PUT, DELETE, GET, HEAD).
    pub fn resource_url(&self, remote_path: &str) -> (r: String)
        ensures
            r@ == resource_url_of(self.base(), remote_path@),
    {
        let p = to_chars(remote_path);
        let path = trim_start_chars(p.as_slice(), '/');
        let ps = from_chars(path.as_slice());
        let enc = encode_path(ps.as_str());
        let base = self.base_url();
        let a = concat_str(base.as_str(), "/");
        concat_str(a.as_str(), enc.as_str())
    }

    /// The request that tests the connection: PROPFIND on the account root,
    /// depth 0, asking for the resource type.
    pub fn test_connection(&self) -> (r: HttpRequest)
        requires
            self.user().len() + self.password().len() < usize::MAX / 16,
        ensures
            r.method == HttpMethod::Propfind,
            r.url@ == self.base() + "/"@,
            r.depth == Some(0u32),
            r.body == RequestBody::PropfindResourceType,
            r.authorization@ == "Basic "@ + base64_standard(encode_utf8(self.user() + ":"@ + self.password())),
    {
        let base = self.base_url();
        let url = concat_str(base.as_str(), "/");
        self.request(HttpMethod::Propfind, url, Some(0), RequestBody::PropfindResourceType)
    }

    /// The outcome of the connection test for the answer's status: 207 and 200
    /// succeed, anything else is "Server returned status N".
    pub fn test_connection_status(status: u16) -> (r: Result<(), WebDAVError>)
        ensures
            (status == 207 || status == 200) ==> r is Ok,
            !(status == 207 || status == 200) ==> http_err(r, status_text("Server"@, status)),
    {
        if status == 207 || status == 200 {
            Ok(())
        } else {
            Err(status_error("Server", status))
        }
    }

    /// The request that checks whether `remote_path` exists: PROPFIND on its
    /// collection URL, depth 0.
    pub fn path_exists(&self, remote_path: &str) -> (r: HttpRequest)
        requires
            self.user().len() + self.password().len() < usize::MAX / 16,
        ensures
            r.method == HttpMethod::Propfind,
            r.url@ == collection_url_of(self.base(), remote_path@),
            r.depth == Some(0u32),
            r.body == RequestBody::PropfindResourceType,
            r.authorization@ == "Basic "@ + base64_standard(encode_utf8(self.user() + ":"@ + self.password())),
    {
        let url = self.collection_url(remote_path);
        self.request(HttpMethod::Propfind, url, Some(0), RequestBody::PropfindResourceType)
    }

    /// Whether the path exists, from the answer's status: 207 and 200 mean
    /// yes, 404 means no, anything else is an error.
    pub fn path_exists_status(status: u16) -> (r: Result<bool, WebDAVError>)
        ensures
            (status == 207 || status == 200) ==> r == Ok::<bool, WebDAVError>(true),
            status == 404 ==> r == Ok::<bool, WebDAVError>(false),
            !(status == 207 || status == 200 || status == 404) ==> http_err(r, status_text("Server"@, status)),
    {
        if status == 207 || status == 200 {
            Ok(true)
        } else if status == 404 {
            Ok(false)
        } else {
            Err(status_error("Server", status))
        }
    }

    /// The request that lists `remote_path`: PROPFIND on its collection URL,
    /// depth 1, asking for type, length and name.
    pub fn list_directory(&self, remote_path: &str) -> (r: HttpRequest)
        requires
            self.user().len() + self.password().len() < usize::MAX / 16,
        ensures
            r.method == HttpMethod::Propfind,
            r.url@ == collection_url_of(self.base(), remote_path@),
            r.depth == Some(1u32),
            r.body == RequestBody::PropfindListing,
            r.authorization@ == "Basic "@ + base64_standard(encode_utf8(self.user() + ":"@ + self.password())),
    {
        let url = self.collection_url(remote_path);
        self.request(HttpMethod::Propfind, url, Some(1), RequestBody::PropfindListing)
    }

    /// The listing request's status: anything but 207 is
    /// "PROPFIND returned status N".
    pub fn list_directory_status(status: u16) -> (r: Result<(), WebDAVError>)
        ensures
            status == 207 ==> r is Ok,
            status != 207 ==> http_err(r, status_text("PROPFIND"@, status)),
    {
        if status == 207 {
            Ok(())
        } else {
            Err(status_error("PROPFIND", status))
        }
    }

    /// The request that uploads a local file to `remote_path`: PUT with the
    /// file's contents.
    pub fn upload_file(&self, remote_path: &str) -> (r: HttpRequest)
        requires
            self.user().len() + self.password().len() < usize::MAX / 16,
        ensures
            r.method == HttpMethod::Put,
            r.url@ == resource_url_of(self.base(), remote_path@),
            r.depth is None,
            r.body == RequestBody::LocalFile,
            r.authorization@ == "Basic "@ + base64_standard(encode_utf8(self.user() + ":"@ + self.password())),
    {
        let url = self.resource_url(remote_path);
        self.request(HttpMethod::Put, url, None, RequestBody::LocalFile)
    }

    /// The upload's status: 200, 201 and 204 succeed, anything else is
    /// "PUT returned status N".
    pub fn upload_status(status: u16) -> (r: Result<(), WebDAVError>)
        ensures
            (status == 200 || status == 201 || status == 204) ==> r is Ok,
            !(status == 200 || status == 201 || status == 204) ==> http_err(r, status_text("PUT"@, status)),
    {
        if status == 200 || status == 201 || status == 204 {
            Ok(())
        } else {
            Err(status_error("PUT", status))
        }
    }

    /// The request that creates the remote directory `remote_path` (MKCOL).
    pub fn create_directory(&self, remote_path: &str) -> (r: HttpRequest)
        requires
            self.user().len() + self.password().len() < usize::MAX / 16,
        ensures
            r.method == HttpMethod::Mkcol,
            r.url@ == mkcol_url_of(self.base(), remote_path@),
            r.depth is None,
            r.body == RequestBody::Empty,
            r.authorization@ == "Basic "@ + base64_standard(encode_utf8(self.user() + ":"@ + self.password())),
    {
        let u = self.resource_url(remote_path);
        let url = concat_str(u.as_str(), "/");
        self.request(HttpMethod::Mkcol, url, None, RequestBody::Empty)
    }

    /// MKCOL's status: 201 (created) and 405 (already there) succeed,
    /// anything else is "MKCOL returned status N".
    pub fn create_directory_status(status: u16) -> (r: Result<(), WebDAVError>)
        ensures
            (status == 201 || status == 405) ==> r is Ok,
            !(status == 201 || status == 405) ==> http_err(r, status_text("MKCOL"@, status)),
    {
        if status == 201 || status == 405 {
            Ok(())
        } else {
            Err(status_error("MKCOL", status))
        }
    }

    /// The request that deletes the remote file or directory `remote_path`.
    pub fn delete(&self, remote_path: &str) -> (r: HttpRequest)
        requires
            self.user().len() + self.password().len() < usize::MAX / 16,
        ensures
            r.method == HttpMethod::Delete,
            r.url@ == resource_url_of(self.base(), remote_path@),
            r.depth is None,
            r.body == RequestBody::Empty,
            r.authorization@ == "Basic "@ + base64_standard(encode_utf8(self.user() + ":"@ + self.password())),
    {
        let url = self.resource_url(remote_path);
        self.request(HttpMethod::Delete, url, None, RequestBody::Empty)
    }

    /// DELETE's status: 200, 204 and 404 (already gone) succeed, anything
    /// else is "DELETE returned status N".
    pub fn delete_status(status: u16) -> (r: Result<(), WebDAVError>)
        ensures
            (status == 200 || status == 204 || status == 404) ==> r is Ok,
            !(status == 200 || status == 204 || status == 404) ==> http_err(r, status_text("DELETE"@, status)),
    {
        if status == 200 || status == 204 || status == 404 {
            Ok(())
        } else {
            Err(status_error("DELETE", status))
        }
    }

    /// The request that downloads `remote_path` (GET).
    pub fn download_file(&self, remote_path: &str) -> (r: HttpRequest)
        requires
            self.user().len() + self.password().len() < usize::MAX / 16,
        ensures
            r.method == HttpMethod::Get,
            r.url@ == resource_url_of(self.base(), remote_path@),
            r.depth is None,
            r.body == RequestBody::Empty,
            r.authorization@ == "Basic "@ + base64_standard(encode_utf8(self.user() + ":"@ + self.password())),
    {
        let url = self.resource_url(remote_path);
        self.request(HttpMethod::Get, url, None, RequestBody::Empty)
    }

    /// GET's status: anything but 200 is "GET returned status N".
    pub fn download_status(status: u16) -> (r: Result<(), WebDAVError>)
        ensures
            status == 200 ==> r is Ok,
            status != 200 ==> http_err(r, status_text("GET"@, status)),
    {
        if status == 200 {
            Ok(())
        } else {
            Err(status_error("GET", status))
        }
    }

    /// The request that checks whether the remote file exists (HEAD).
    pub fn file_exists(&self, remote_path: &str) -> (r: HttpRequest)
        requires
            self.user().len() + self.password().len() < usize::MAX / 16,
        ensures
            r.method == HttpMethod::Head,
            r.url@ == resource_url_of(self.base(), remote_path@),
            r.depth is None,
            r.body == RequestBody::Empty,
            r.authorization@ == "Basic "@ + base64_standard(encode_utf8(self.user() + ":"@ + self.password())),
    {
        let url = self.resource_url(remote_path);
        self.request(HttpMethod::Head, url, None, RequestBody::Empty)
    }

    /// HEAD's status: the file exists exactly when it is 200.
    pub fn file_exists_status(status: u16) -> (r: bool)
        ensures
            r == (status == 200),
    {
        status == 200
    }
}

/// `Basic ` followed by an encoded `user:password`.
pub fn basic_auth_value(encoded: &str) -> (r: String)
    ensures
        r@ == "Basic "@ + encoded@,
{
    concat_str("Basic ", encoded)
}


/// The collection URL of a path keeps the path's folders apart: after the
/// account's base URL and a `/` comes the encoded path, then a `/`; the
/// encoded path decodes back to the path without its outer `/`, and it
/// holds exactly as many `/` separators as that path does. The root is the
/// base URL followed by `/`.
pub proof fn law_collection_url_keeps_separators(base: Seq<char>, remote_path: Seq<char>)
    ensures
        trim_char(remote_path, '/').len() == 0 ==> collection_url_of(base, remote_path) == base + "/"@,
        trim_char(remote_path, '/').len() > 0 ==> exists|q: Seq<char>|
            #![trigger url_decode(q)]
            collection_url_of(base, remote_path) == base + "/"@ + q + "/"@ && url_decode(q) == trim_char(
                remote_path,
                '/',
            ) && count_of(q, '/') == count_of(trim_char(remote_path, '/'), '/'),
{
    let t = trim_char(remote_path, '/');
    if t.len() > 0 {
        let q = path_encode(t);
        law_decode_inverts_encode_path(t);
        law_path_encode_keeps_separators(t);
        assert(url_decode(q) == t);
    }
}

/// The URL of a file keeps the path's folders apart in the same way: the
/// base URL, a `/`, then the encoded path without its leading `/`, which
/// decodes back to it and holds as many `/` as it does.
pub proof fn law_resource_url_keeps_separators(base: Seq<char>, remote_path: Seq<char>)
    ensures
        exists|q: Seq<char>|
            #![trigger url_decode(q)]
            resource_url_of(base, remote_path) == base + "/"@ + q && url_decode(q) == trim_start_char(remote_path, '/')
                && count_of(q, '/') == count_of(trim_start_char(remote_path, '/'), '/'),
{
    let t = trim_start_char(remote_path, '/');
    let q = path_encode(t);
    law_decode_inverts_encode_path(t);
    law_path_encode_keeps_separators(t);
    assert(url_decode(q) == t);
}

} // verus!
