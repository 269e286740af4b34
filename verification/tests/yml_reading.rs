use openapi_yml::yml::OpenApi;

const PET_STORE: &str = "openapi: 3.0.0
info:
  title: Pet Store
  description: A small store
  version: 1.0.1
servers:
  - url: http://localhost:8080
    description: Local server
  - url: https://example.com
    description: Public server
paths:
  /pets:
    get:
      summary: List pets
      description: Returns all pets
      headers:
        X-Rate-Limit:
          description: Requests per hour
          type: integer
          example: 100
      responses:
        \"200\":
          description: A list of pets
          content:
            application/json: {}
        \"404\":
          description: Not found
    post:
      summary: Add a pet
      requestBody:
        required: true
        content:
          application/json: {}
      responses:
        \"201\":
          description: Created";

fn read(text: &str) -> OpenApi {
    OpenApi::try_from_yml_string(&String::from(text)).expect("the status patterns compile")
}

#[test]
fn reads_openapi_version() {
    let api = read("openapi: 3.0.0\ninfo:\n  title: Demo\n");
    assert_eq!(api.openapi, "3.0.0");
    assert_eq!(api.info.title(), "Demo");
}

#[test]
fn from_yml_string_reads_like_try_from_yml_string() {
    let api = OpenApi::from_yml_string(&String::from(PET_STORE));
    assert_eq!(api.to_string(), read(PET_STORE).to_string());
}

#[test]
fn reads_info_section() {
    let api = read(PET_STORE);
    assert_eq!(api.info.title(), "Pet Store");
    assert_eq!(api.info.description(), "A small store");
    assert_eq!(api.info.version(), "1.0.1");
}

#[test]
fn reads_servers() {
    let api = read(PET_STORE);
    assert_eq!(api.servers.len(), 2);
    assert_eq!(api.servers[0].url(), "http://localhost:8080");
    assert_eq!(api.servers[0].description(), "Local server");
    assert_eq!(api.servers[1].url(), "https://example.com");
    assert_eq!(api.servers[1].description(), "Public server");
}

#[test]
fn reads_paths_and_methods() {
    let api = read(PET_STORE);
    assert_eq!(api.paths.len(), 1);
    let path = &api.paths[0];
    assert_eq!(path.path(), "pets");
    assert_eq!(path.methods().len(), 2);
    assert_eq!(path.methods()[0].method(), "get");
    assert_eq!(path.methods()[0].summary(), "List pets");
    assert_eq!(path.methods()[0].description(), "Returns all pets");
    assert_eq!(path.methods()[1].method(), "post");
    assert_eq!(path.methods()[1].summary(), "Add a pet");
    assert_eq!(path.methods()[1].description(), "");
}

#[test]
fn reads_headers_of_a_method() {
    let api = read(PET_STORE);
    let get = &api.paths[0].methods()[0];
    assert_eq!(get.headers().len(), 1);
    let h = &get.headers()[0];
    assert_eq!(h.name(), "X-Rate-Limit");
    assert_eq!(h.description(), "Requests per hour");
    assert_eq!(h.header_type(), "integer");
    assert_eq!(h.example(), "100");
}

#[test]
fn reads_request_body() {
    let api = read(PET_STORE);
    let get = &api.paths[0].methods()[0];
    assert!(!get.body().required());
    assert_eq!(get.body().content_type(), "");
    let post = &api.paths[0].methods()[1];
    assert!(post.body().required());
    assert_eq!(post.body().content_type(), "application/json");
}

#[test]
fn reads_responses() {
    let api = read(PET_STORE);
    let get = &api.paths[0].methods()[0];
    assert_eq!(get.responses().len(), 2);
    assert_eq!(get.responses()[0].code(), "200");
    assert_eq!(get.responses()[0].description(), "A list of pets");
    assert_eq!(get.responses()[0].content_type(), "application/json");
    assert_eq!(get.responses()[1].code(), "404");
    assert_eq!(get.responses()[1].description(), "Not found");
    assert_eq!(get.responses()[1].content_type(), "");
    let post = &api.paths[0].methods()[1];
    assert_eq!(post.responses().len(), 1);
    assert_eq!(post.responses()[0].code(), "201");
    assert_eq!(post.responses()[0].description(), "Created");
}

#[test]
fn writing_what_was_read_gives_the_text_back() {
    assert_eq!(read(PET_STORE).to_string(), PET_STORE);
}

#[test]
fn reading_what_was_written_gives_the_same_document() {
    let once = read(PET_STORE).to_string();
    let twice = read(&once).to_string();
    assert_eq!(once, twice);
}

#[test]
fn empty_text_gives_an_empty_document() {
    let api = read("");
    assert_eq!(api.openapi, "");
    assert_eq!(api.info.title(), "");
    assert!(api.servers.is_empty());
    assert!(api.paths.is_empty());
    assert_eq!(
        api.to_string(),
        "openapi: \ninfo:\n  title: \n  description: \n  version: \nservers:\n\npaths:\n"
    );
}

#[test]
fn carriage_returns_before_line_breaks_are_dropped() {
    let api = read("openapi: 3.1\r\ninfo:\r\n  title: T\r\n  version: 9");
    assert_eq!(api.openapi, "3.1");
    assert_eq!(api.info.title(), "T");
    assert_eq!(api.info.version(), "9");
}

#[test]
fn info_values_keep_their_inner_spaces() {
    let api = read("info:\n    title:   spaced  out\n");
    assert_eq!(api.info.title(), "  spaced  out");
}

#[test]
fn later_info_lines_win() {
    let api = read("info:\n  title: first\n  title: second\n");
    assert_eq!(api.info.title(), "second");
}

#[test]
fn method_without_http_name_has_empty_method() {
    let api = read("paths:\n  /a:\n    summary: none\n");
    let m = &api.paths[0].methods()[0];
    assert_eq!(m.method(), "");
    assert_eq!(m.summary(), "none");
}

#[test]
fn connect_is_an_http_method() {
    let api = read("paths:\n  /a:\n    connect:\n      summary: tunnel\n");
    let m = &api.paths[0].methods()[0];
    assert_eq!(m.method(), "connect");
    assert_eq!(m.summary(), "tunnel");
}

#[test]
fn four_digit_codes_do_not_start_a_response() {
    let api = read("paths:\n  /a:\n    get:\n      responses:\n        \"2000\":\n          description: x\n");
    let m = &api.paths[0].methods()[0];
    assert!(m.responses().is_empty());
}

#[test]
fn header_names_lose_all_trailing_colons() {
    let api = read("paths:\n  /a:\n    get:\n      headers:\n        X-Id::\n          type: string\n      responses:\n");
    let m = &api.paths[0].methods()[0];
    assert_eq!(m.headers().len(), 1);
    assert_eq!(m.headers()[0].name(), "X-Id");
    assert_eq!(m.headers()[0].header_type(), "string");
}

#[test]
fn required_must_be_true_up_to_white_space() {
    let api = read("paths:\n  /a:\n    post:\n      requestBody:\n        required:  true  \n      responses:\n");
    assert!(api.paths[0].methods()[0].body().required());
    let api = read("paths:\n  /a:\n    post:\n      requestBody:\n        required: yes\n      responses:\n");
    assert!(!api.paths[0].methods()[0].body().required());
}

#[test]
fn minimal_method_is_written_as_its_name() {
    let api = read("paths:\n  /a:\n    get:\n");
    assert_eq!(api.to_string(), "openapi: \ninfo:\n  title: \n  description: \n  version: \nservers:\n\npaths:\n  /a:\n    get:");
}

#[test]
fn document_without_paths_reads_back_after_writing() {
    let text = "openapi: 3.0.3\ninfo:\n  title: Notes\n  description: Short notes\n  version: 2\nservers:\n  - url: http://a.example\n    description: first\n  - url: http://b.example\n    description: second\npaths:\n";
    let api = read(text);
    let again = read(&api.to_string());
    assert_eq!(again.openapi, "3.0.3");
    assert_eq!(again.info.title(), "Notes");
    assert_eq!(again.info.description(), "Short notes");
    assert_eq!(again.info.version(), "2");
    assert_eq!(again.servers.len(), 2);
    assert_eq!(again.servers[0].url(), "http://a.example");
    assert_eq!(again.servers[0].description(), "first");
    assert_eq!(again.servers[1].url(), "http://b.example");
    assert_eq!(again.servers[1].description(), "second");
    assert!(again.paths.is_empty());
    assert_eq!(again.to_string(), api.to_string());
}

#[test]
fn document_without_servers_or_paths_reads_back_after_writing() {
    let api = read("openapi: 3.1.0\ninfo:\n  title: Bare\n  description: nothing\n  version: 0.1\n");
    let again = read(&api.to_string());
    assert_eq!(again.openapi, "3.1.0");
    assert_eq!(again.info.title(), "Bare");
    assert_eq!(again.info.description(), "nothing");
    assert_eq!(again.info.version(), "0.1");
    assert!(again.servers.is_empty());
    assert!(again.paths.is_empty());
}

fn assert_same_document(a: &OpenApi, b: &OpenApi) {
    assert_eq!(a.openapi, b.openapi);
    assert_eq!(a.info.title(), b.info.title());
    assert_eq!(a.info.description(), b.info.description());
    assert_eq!(a.info.version(), b.info.version());
    assert_eq!(a.servers.len(), b.servers.len());
    for (x, y) in a.servers.iter().zip(b.servers.iter()) {
        assert_eq!(x.url(), y.url());
        assert_eq!(x.description(), y.description());
    }
    assert_eq!(a.paths.len(), b.paths.len());
    for (p, q) in a.paths.iter().zip(b.paths.iter()) {
        assert_eq!(p.path(), q.path());
        assert_eq!(p.methods().len(), q.methods().len());
        for (m, n) in p.methods().iter().zip(q.methods().iter()) {
            assert_eq!(m.method(), n.method());
            assert_eq!(m.summary(), n.summary());
            assert_eq!(m.description(), n.description());
            assert_eq!(m.body().required(), n.body().required());
            assert_eq!(m.body().content_type(), n.body().content_type());
            assert_eq!(m.headers().len(), n.headers().len());
            for (h, k) in m.headers().iter().zip(n.headers().iter()) {
                assert_eq!(h.name(), k.name());
                assert_eq!(h.description(), k.description());
                assert_eq!(h.header_type(), k.header_type());
                assert_eq!(h.example(), k.example());
            }
            assert_eq!(m.responses().len(), n.responses().len());
            for (r, s) in m.responses().iter().zip(n.responses().iter()) {
                assert_eq!(r.code(), s.code());
                assert_eq!(r.description(), s.description());
                assert_eq!(r.content_type(), s.content_type());
            }
        }
    }
}

#[test]
fn document_with_paths_reads_back_field_by_field() {
    let api = read(PET_STORE);
    let again = read(&api.to_string());
    assert_same_document(&api, &again);
    assert_eq!(again.paths[0].methods()[0].headers()[0].name(), "X-Rate-Limit");
    assert_eq!(again.paths[0].methods()[1].body().content_type(), "application/json");
}

#[test]
fn several_paths_with_several_headers_read_back() {
    let text = "openapi: 3.0.0
info:
  title: Shop
  description: Orders and items
  version: 7
servers:
  - url: http://shop.example
    description: main
paths:
  /orders:
    get:
      summary: All orders
      headers:
        X-Page:
          description: page number
          type: integer
        X-Size:
          example: 20
      responses:
        \"200\":
          description: the orders
          content:
            application/json: {}
    delete:
      description: Removes all orders
      requestBody:
        content:
          text/plain: {}
  /items:
    put:
      requestBody:
        required: true
      responses:
        \"204\":
          description: stored
        \"500\":
          content:
            text/html: {}";
    let api = read(text);
    assert_eq!(api.paths.len(), 2);
    assert_eq!(api.paths[0].methods().len(), 2);
    assert_eq!(api.paths[0].methods()[0].headers().len(), 2);
    assert_eq!(api.paths[0].methods()[0].headers()[1].name(), "X-Size");
    assert_eq!(api.paths[0].methods()[0].headers()[1].example(), "20");
    assert_eq!(api.paths[0].methods()[1].body().content_type(), "text/plain");
    assert_eq!(api.paths[1].methods()[0].responses()[1].code(), "500");
    assert_eq!(api.paths[1].methods()[0].responses()[1].content_type(), "text/html");
    let again = read(&api.to_string());
    assert_same_document(&api, &again);
}

#[test]
fn paths_without_methods_read_back() {
    let text = "openapi: 3.0.0
info:
  title: Bare paths
  description: none
  version: 1
servers:
paths:
  /first:
  /second:
    get:
      summary: the second
  /third:";
    let api = read(text);
    assert_eq!(api.paths.len(), 3);
    assert_eq!(api.paths[0].path(), "first");
    assert!(api.paths[0].methods().is_empty());
    assert_eq!(api.paths[1].methods().len(), 1);
    assert_eq!(api.paths[2].path(), "third");
    assert!(api.paths[2].methods().is_empty());
    let written = api.to_string();
    assert!(written.ends_with("  /third:\n"));
    let again = read(&written);
    assert_same_document(&api, &again);
}
