use openapi_yml::open_api::OpenApi;

const ITEMS: &str = "openapi: 3.0.0
info:
  title: Demo
  description: Old
  version: 2
servers:
  - url: http://a
    description: A
paths:
  /items:
    get:
      summary: Items
      description: All items
      responses:
        \"200\"
          description: OK
          content: application/json";

fn read(text: &str) -> OpenApi {
    OpenApi::try_from_yml_string(&String::from(text)).expect("the status patterns compile")
}

#[test]
fn simple_reader_reads_a_document() {
    let api = read(ITEMS);
    assert_eq!(api.openapi, "3.0.0");
    assert_eq!(api.info.title(), "Demo");
    assert_eq!(api.info.version(), "2");
    assert_eq!(api.servers.len(), 1);
    assert_eq!(api.servers[0].url(), "http://a");
    assert_eq!(api.paths.len(), 1);
    assert_eq!(api.paths[0].path(), "items");
    let m = &api.paths[0].methods()[0];
    assert_eq!(m.method(), "get");
    assert_eq!(m.summary(), "Items");
    assert_eq!(m.responses().len(), 1);
    assert_eq!(m.responses()[0].code(), "200");
    assert_eq!(m.responses()[0].description(), "OK");
    assert_eq!(m.responses()[0].content(), "application/json");
}

#[test]
fn simple_reader_writes_a_document() {
    let api = read(ITEMS);
    assert_eq!(
        api.to_string(),
        "openapi: 3.0.0\ninfo:\n  title: Demo\n  description: Old\n  version: 2 \nservers:\n  - url: http://a\n    description: A \npaths:\n  /items:\n    get:\n      summary: Items\n      description: All items\n      responses:         \"200\"\n          description: OK\n          content: application/json"
    );
}

#[test]
fn simple_reader_from_yml_string() {
    let api = OpenApi::from_yml_string(&String::from(ITEMS));
    assert_eq!(api.paths[0].methods()[0].responses()[0].code(), "200");
}

#[test]
fn simple_reader_takes_methods_without_colon() {
    let api = read("paths:\n  /a:\n    getter stuff\n");
    assert_eq!(api.paths[0].methods()[0].method(), "get");
}

#[test]
fn simple_reader_empty_text() {
    let api = read("");
    assert!(api.paths.is_empty());
    assert_eq!(
        api.to_string(),
        "openapi: \ninfo:\n  title: \n  description: \n  version:  \nservers:\n \npaths:\n"
    );
}

#[test]
fn simple_reader_method_names_are_http_methods_or_empty() {
    let api = read("paths:\n  /a:\n    summary: no method here\n    connect:\n      summary: tunnel\n");
    let methods = api.paths[0].methods();
    assert_eq!(methods.len(), 2);
    assert_eq!(methods[0].method(), "");
    assert_eq!(methods[0].summary(), "no method here");
    assert_eq!(methods[1].method(), "connect");
    assert_eq!(methods[1].summary(), "tunnel");
}
