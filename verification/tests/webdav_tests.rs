use simplesync::webdav::{
    basic_auth_value, child_path, HttpMethod, RequestBody, WebDAVClient, WebDAVError,
};

fn client() -> WebDAVClient {
    WebDAVClient::new("https://cloud.example.com//", "alice", "secret")
}

#[test]
fn base_url_trims_server_slashes() {
    assert_eq!(client().base_url(), "https://cloud.example.com/remote.php/dav/files/alice");
}

#[test]
fn auth_header_is_basic_base64() {
    let c = WebDAVClient::new("https://x", "user", "pass");
    assert_eq!(c.auth_header(), "Basic dXNlcjpwYXNz");
    assert_eq!(basic_auth_value("abc"), "Basic abc");
}

#[test]
fn collection_urls() {
    let c = client();
    let base = "https://cloud.example.com/remote.php/dav/files/alice";
    assert_eq!(c.collection_url("/"), format!("{}/", base));
    assert_eq!(c.collection_url(""), format!("{}/", base));
    assert_eq!(c.collection_url("/My Docs/"), format!("{}/My%20Docs/", base));
}

#[test]
fn resource_urls() {
    let c = client();
    let base = "https://cloud.example.com/remote.php/dav/files/alice";
    assert_eq!(c.resource_url("/a/b c.txt"), format!("{}/a/b%20c.txt", base));
    let r = c.create_directory("/Photos/2024");
    assert_eq!(r.method, HttpMethod::Mkcol);
    assert_eq!(r.url, format!("{}/Photos/2024/", base));
    assert_eq!(r.body, RequestBody::Empty);
}

#[test]
fn requests_carry_method_depth_and_body() {
    let c = client();
    let t = c.test_connection();
    assert_eq!(t.method, HttpMethod::Propfind);
    assert_eq!(t.depth, Some(0));
    assert_eq!(t.body, RequestBody::PropfindResourceType);
    assert_eq!(t.authorization, c.auth_header());
    let l = c.list_directory("/docs");
    assert_eq!(l.depth, Some(1));
    assert_eq!(l.body, RequestBody::PropfindListing);
    assert_eq!(c.upload_file("/x").method, HttpMethod::Put);
    assert_eq!(c.upload_file("/x").body, RequestBody::LocalFile);
    assert_eq!(c.delete("/x").method, HttpMethod::Delete);
    assert_eq!(c.download_file("/x").method, HttpMethod::Get);
    assert_eq!(c.file_exists("/x").method, HttpMethod::Head);
    assert_eq!(c.path_exists("/x").depth, Some(0));
}

fn http_message(r: Result<(), WebDAVError>) -> String {
    match r {
        Err(WebDAVError::Http(m)) => m,
        _ => panic!("expected an HTTP error"),
    }
}

#[test]
fn status_interpretation() {
    assert!(WebDAVClient::test_connection_status(207).is_ok());
    assert!(WebDAVClient::test_connection_status(200).is_ok());
    assert_eq!(http_message(WebDAVClient::test_connection_status(401)), "Server returned status 401");
    assert!(matches!(WebDAVClient::path_exists_status(207), Ok(true)));
    assert!(matches!(WebDAVClient::path_exists_status(404), Ok(false)));
    assert!(matches!(WebDAVClient::path_exists_status(500), Err(WebDAVError::Http(_))));
    assert_eq!(http_message(WebDAVClient::list_directory_status(200)), "PROPFIND returned status 200");
    assert!(WebDAVClient::upload_status(201).is_ok());
    assert_eq!(http_message(WebDAVClient::upload_status(507)), "PUT returned status 507");
    assert!(WebDAVClient::create_directory_status(405).is_ok());
    assert_eq!(http_message(WebDAVClient::create_directory_status(409)), "MKCOL returned status 409");
    assert!(WebDAVClient::delete_status(404).is_ok());
    assert_eq!(http_message(WebDAVClient::delete_status(403)), "DELETE returned status 403");
    assert!(WebDAVClient::download_status(200).is_ok());
    assert_eq!(http_message(WebDAVClient::download_status(206)), "GET returned status 206");
    assert!(WebDAVClient::file_exists_status(200));
    assert!(!WebDAVClient::file_exists_status(404));
}

#[test]
fn error_messages() {
    assert_eq!(WebDAVError::Http("x".to_string()).message(), "HTTP error: x");
    assert_eq!(WebDAVError::Parse("y".to_string()).message(), "Parse error: y");
    assert_eq!(WebDAVError::Io("z".to_string()).message(), "IO error: z");
}

#[test]
fn child_paths() {
    assert_eq!(child_path("/", "a"), "/a");
    assert_eq!(child_path("", "a"), "/a");
    assert_eq!(child_path("/docs/", "a"), "/docs/a");
    assert_eq!(child_path("/docs", "a"), "/docs/a");
}
