//! Reading an OpenAPI document from its YAML text, line by line, and writing
//! it back as YAML text.
//!
//! The reader recognises the `openapi`, `info`, `servers` and `paths`
//! sections; under `paths` each path with its methods, and under each method
//! its summary, description, headers, request body and responses.
use vstd::prelude::*;
use crate::text::{
    char_vecs_view, chars_of, ends_with, ends_with_char, equals_str, first_yml_key,
    first_yml_key_spec, has_prefix, lines_of, push_line, return_yml_after_key, rm_starting_spaces,
    rm_yml_key, split_lines, starts_with, starts_with_chars, string_from_chars, trim,
    trim_end_char, trim_end_matches, trim_start_spaces, trim_white_space, with_newline,
    yml_after_key, yml_value, skip_first_line, before_char, join_with, drop_first_char,
    strings_view, chars_from, concat2, concat3, join_strings, string_of, chars_upto, find_char, lemma_char_pos, join_lines_from, push_chars,
};
use crate::status_pattern::{
    quoted_status, quoted_status_code, regex_compiles, StatusPatterns, STATUS_CODE, STATUS_LINE,
};

verus! {

// ---------------------------------------------------------------------------
// Types
// ---------------------------------------------------------------------------
/// An OpenAPI document.
pub struct OpenApi {
    pub openapi: String,
    pub info: OpenApiInfo,
    pub servers: Vec<OpenApiServer>,
    pub paths: Vec<OpenApiPath>,
}

/// The `info` section.
pub struct OpenApiInfo {
    title: String,
    description: String,
    version: String,
}

/// One entry of the `servers` list.
pub struct OpenApiServer {
    url: String,
    description: String,
}

/// One path with its methods.
pub struct OpenApiPath {
    path: String,
    methods: Vec<OpenApiMethod>,
}

/// One method (operation) of a path.
pub struct OpenApiMethod {
    method: String,
    summary: String,
    description: String,
    body: OpenApiRequestBody,
    header: Vec<OpenApiHeader>,
    responses: Vec<OpenApiResponse>,
}

/// The request body of a method.
pub struct OpenApiRequestBody {
    required: bool,
    content_type: String,
}

/// One header of a method.
pub struct OpenApiHeader {
    name: String,
    description: String,
    header_type: String,
    example: String,
}

/// One response of a method.
pub struct OpenApiResponse {
    code: String,
    description: String,
    content_type: String,
}

// ---------------------------------------------------------------------------
// Models
// ---------------------------------------------------------------------------
/// What an [`OpenApi`] holds.
pub struct OpenApiModel {
    pub openapi: Seq<char>,
    pub info: InfoModel,
    pub servers: Seq<ServerModel>,
    pub paths: Seq<PathModel>,
}

/// What an [`OpenApiInfo`] holds.
pub struct InfoModel {
    pub title: Seq<char>,
    pub description: Seq<char>,
    pub version: Seq<char>,
}

/// What an [`OpenApiServer`] holds.
pub struct ServerModel {
    pub url: Seq<char>,
    pub description: Seq<char>,
}

/// What an [`OpenApiPath`] holds.
pub struct PathModel {
    pub path: Seq<char>,
    pub methods: Seq<MethodModel>,
}

/// What an [`OpenApiMethod`] holds.
pub struct MethodModel {
    pub method: Seq<char>,
    pub summary: Seq<char>,
    pub description: Seq<char>,
    pub body: RequestBodyModel,
    pub header: Seq<HeaderModel>,
    pub responses: Seq<ResponseModel>,
}

/// What an [`OpenApiRequestBody`] holds.
pub struct RequestBodyModel {
    pub required: bool,
    pub content_type: Seq<char>,
}

/// What an [`OpenApiHeader`] holds.
pub struct HeaderModel {
    pub name: Seq<char>,
    pub description: Seq<char>,
    pub header_type: Seq<char>,
    pub example: Seq<char>,
}

/// What an [`OpenApiResponse`] holds.
pub struct ResponseModel {
    pub code: Seq<char>,
    pub description: Seq<char>,
    pub content_type: Seq<char>,
}

impl View for OpenApiInfo {
    type V = InfoModel;

    closed spec fn view(&self) -> InfoModel {
        InfoModel { title: self.title@, description: self.description@, version: self.version@ }
    }
}

impl View for OpenApiServer {
    type V = ServerModel;

    closed spec fn view(&self) -> ServerModel {
        ServerModel { url: self.url@, description: self.description@ }
    }
}

impl View for OpenApiRequestBody {
    type V = RequestBodyModel;

    closed spec fn view(&self) -> RequestBodyModel {
        RequestBodyModel { required: self.required, content_type: self.content_type@ }
    }
}

impl View for OpenApiHeader {
    type V = HeaderModel;

    closed spec fn view(&self) -> HeaderModel {
        HeaderModel {
            name: self.name@,
            description: self.description@,
            header_type: self.header_type@,
            example: self.example@,
        }
    }
}

impl View for OpenApiResponse {
    type V = ResponseModel;

    closed spec fn view(&self) -> ResponseModel {
        ResponseModel {
            code: self.code@,
            description: self.description@,
            content_type: self.content_type@,
        }
    }
}

/// The models of a sequence of headers.
pub open spec fn headers_view(v: Seq<OpenApiHeader>) -> Seq<HeaderModel> {
    v.map_values(|x: OpenApiHeader| x@)
}

/// The models of a sequence of responses.
pub open spec fn responses_view(v: Seq<OpenApiResponse>) -> Seq<ResponseModel> {
    v.map_values(|x: OpenApiResponse| x@)
}

/// The models of a sequence of servers.
pub open spec fn servers_view(v: Seq<OpenApiServer>) -> Seq<ServerModel> {
    v.map_values(|x: OpenApiServer| x@)
}

/// The models of a sequence of methods.
pub open spec fn methods_view(v: Seq<OpenApiMethod>) -> Seq<MethodModel> {
    v.map_values(|x: OpenApiMethod| x@)
}

/// The models of a sequence of paths.
pub open spec fn paths_view(v: Seq<OpenApiPath>) -> Seq<PathModel> {
    v.map_values(|x: OpenApiPath| x@)
}

impl View for OpenApiMethod {
    type V = MethodModel;

    closed spec fn view(&self) -> MethodModel {
        MethodModel {
            method: self.method@,
            summary: self.summary@,
            description: self.description@,
            body: self.body@,
            header: headers_view(self.header@),
            responses: responses_view(self.responses@),
        }
    }
}

impl View for OpenApiPath {
    type V = PathModel;

    closed spec fn view(&self) -> PathModel {
        PathModel { path: self.path@, methods: methods_view(self.methods@) }
    }
}

impl View for OpenApi {
    type V = OpenApiModel;

    open spec fn view(&self) -> OpenApiModel {
        OpenApiModel {
            openapi: self.openapi@,
            info: self.info@,
            servers: servers_view(self.servers@),
            paths: paths_view(self.paths@),
        }
    }
}

// ---------------------------------------------------------------------------
// Reading: specifications
// ---------------------------------------------------------------------------
/// The HTTP methods a method block can start with, in the order they are tried.
pub open spec fn http_methods() -> Seq<Seq<char>> {
    seq![
        "get"@,
        "post"@,
        "put"@,
        "delete"@,
        "head"@,
        "patch"@,
        "trace"@,
        "options"@,
        "connect"@,
    ]
}

/// The first method `m` of `ms` such that `line` starts with `m:`.
pub open spec fn first_method_key(line: Seq<char>, ms: Seq<Seq<char>>) -> Option<Seq<char>>
    decreases ms.len(),
{
    if ms.len() == 0 {
        None
    } else if has_prefix(line, ms[0] + seq![':']) {
        Some(ms[0])
    } else {
        first_method_key(line, ms.drop_first())
    }
}

/// Whether `line` opens a method block, like `get:` or `post:`.
pub open spec fn is_method_line(line: Seq<char>) -> bool {
    first_method_key(line, http_methods()) is Some
}

/// An empty info section.
pub open spec fn empty_info() -> InfoModel {
    InfoModel { title: seq![], description: seq![], version: seq![] }
}

/// How one line of the `info` section changes what has been read.
pub open spec fn info_step(info: InfoModel, line: Seq<char>) -> InfoModel {
    let l = trim_start_spaces(line);
    if has_prefix(l, "title:"@) {
        InfoModel { title: yml_value(l), ..info }
    } else if has_prefix(l, "description:"@) {
        InfoModel { description: yml_value(l), ..info }
    } else if has_prefix(l, "version:"@) {
        InfoModel { version: yml_value(l), ..info }
    } else {
        info
    }
}

/// The info read from the lines `ls`.
pub open spec fn info_fold(ls: Seq<Seq<char>>) -> InfoModel
    decreases ls.len(),
{
    if ls.len() == 0 {
        empty_info()
    } else {
        info_step(info_fold(ls.drop_last()), ls.last())
    }
}

/// The info read from the text `yml`: for each of `title`, `description`
/// and `version`, the value of the last line (leading spaces dropped) that
/// starts with that key and a colon.
pub open spec fn info_from_yml(yml: Seq<char>) -> InfoModel {
    info_fold(lines_of(yml))
}

/// An empty server entry.
pub open spec fn empty_server() -> ServerModel {
    ServerModel { url: seq![], description: seq![] }
}

/// How one line of a server entry changes what has been read.
pub open spec fn server_step(server: ServerModel, line: Seq<char>) -> ServerModel {
    let l = trim_start_spaces(line);
    if has_prefix(l, "url:"@) {
        ServerModel { url: yml_value(l), ..server }
    } else if has_prefix(l, "description"@) {
        ServerModel { description: yml_value(l), ..server }
    } else {
        server
    }
}

/// The server read from the lines `ls`.
pub open spec fn server_fold(ls: Seq<Seq<char>>) -> ServerModel
    decreases ls.len(),
{
    if ls.len() == 0 {
        empty_server()
    } else {
        server_step(server_fold(ls.drop_last()), ls.last())
    }
}

/// The server read from the text `yml`.
pub open spec fn server_from_yml(yml: Seq<char>) -> ServerModel {
    server_fold(lines_of(yml))
}

/// An empty header.
pub open spec fn empty_header() -> HeaderModel {
    HeaderModel { name: seq![], description: seq![], header_type: seq![], example: seq![] }
}

/// How one line of a header block changes what has been read.
pub open spec fn header_step(h: HeaderModel, line: Seq<char>) -> HeaderModel {
    let l = trim_white_space(line);
    if l.len() == 0 {
        h
    } else if has_prefix(l, "description:"@) {
        HeaderModel { description: yml_value(l), ..h }
    } else if has_prefix(l, "type:"@) {
        HeaderModel { header_type: yml_value(l), ..h }
    } else if has_prefix(l, "example:"@) {
        HeaderModel { example: yml_value(l), ..h }
    } else if ends_with_char(l, ':') && h.name.len() == 0 {
        HeaderModel { name: trim_end_char(l, ':'), ..h }
    } else {
        h
    }
}

/// The header read from the lines `ls`.
pub open spec fn header_fold(ls: Seq<Seq<char>>) -> HeaderModel
    decreases ls.len(),
{
    if ls.len() == 0 {
        empty_header()
    } else {
        header_step(header_fold(ls.drop_last()), ls.last())
    }
}

/// The header read from the text `yml`.
pub open spec fn header_from_yml(yml: Seq<char>) -> HeaderModel {
    header_fold(lines_of(yml))
}

/// Whether the request body is marked required, after reading the lines
/// `ls`: decided by the last line that starts with `required:`, whose value
/// must be `true` up to white space.
pub open spec fn required_fold(ls: Seq<Seq<char>>) -> bool
    decreases ls.len(),
{
    if ls.len() == 0 {
        false
    } else if has_prefix(ls.last(), "required:"@) {
        trim_white_space(yml_value(ls.last())) == "true"@
    } else {
        required_fold(ls.drop_last())
    }
}

/// The request body read from the text `yml`: whether it is required, and the
/// first key under its `content:` line.
pub open spec fn body_from_yml(yml: Seq<char>) -> RequestBodyModel {
    RequestBodyModel {
        required: required_fold(lines_of(yml)),
        content_type: first_yml_key_spec(yml_after_key(yml, "content:"@)),
    }
}

/// Reading state of a response block.
pub struct ResponseScan {
    pub code: Seq<char>,
    pub description: Seq<char>,
    pub reading_content: bool,
    pub content: Seq<char>,
}

/// How one line of a response block changes the reading state.
pub open spec fn response_step(st: ResponseScan, l: Seq<char>) -> ResponseScan {
    let content = if st.reading_content {
        st.content + with_newline(l)
    } else {
        st.content
    };
    if quoted_status(l) {
        ResponseScan { code: quoted_status_code(l), content, ..st }
    } else if has_prefix(l, "description:"@) {
        ResponseScan { description: yml_value(l), content, ..st }
    } else if has_prefix(l, "content:"@) {
        ResponseScan { reading_content: true, content, ..st }
    } else {
        ResponseScan { content, ..st }
    }
}

/// The reading state after the lines `ls` of a response block.
pub open spec fn response_fold(ls: Seq<Seq<char>>) -> ResponseScan
    decreases ls.len(),
{
    if ls.len() == 0 {
        ResponseScan { code: seq![], description: seq![], reading_content: false, content: seq![] }
    } else {
        response_step(response_fold(ls.drop_last()), ls.last())
    }
}

/// The response read from the text `yml`: its code from the last line that
/// starts with a quoted three-digit code, its description, and the first key
/// of the lines after its `content:` line.
pub open spec fn response_from_yml(yml: Seq<char>) -> ResponseModel {
    let st = response_fold(lines_of(yml));
    ResponseModel {
        code: st.code,
        description: st.description,
        content_type: first_yml_key_spec(st.content),
    }
}

// ---------------------------------------------------------------------------
// Reading: implementation
// ---------------------------------------------------------------------------
/// The HTTP methods a method block can start with, in the order they are tried.
pub fn http_method_names() -> (v: Vec<&'static str>)
    ensures
        v@.map_values(|s: &str| s@) == http_methods(),
{
    let v = vec!["get", "post", "put", "delete", "head", "patch", "trace", "options", "connect"];
    assert(v@.map_values(|s: &str| s@) =~= http_methods());
    v
}

/// The first HTTP method `m` such that `line` starts with `m:`.
fn method_key_of(line: &[char]) -> (r: Option<&'static str>)
    ensures
        match r {
            Some(m) => first_method_key(line@, http_methods()) == Some(m@),
            None => first_method_key(line@, http_methods()) is None,
        },
{
    let ms = http_method_names();
    let ghost mv = ms@.map_values(|s: &str| s@);
    let mut i: usize = 0;
    assert(mv.skip(0) =~= mv);
    while i < ms.len()
        invariant
            i <= ms@.len(),
            mv == ms@.map_values(|s: &str| s@),
            mv == http_methods(),
            first_method_key(line@, mv) == first_method_key(line@, mv.skip(i as int)),
        decreases ms@.len() - i,
    {
        let mut key = chars_of(ms[i]);
        key.push(':');
        proof {
            assert(mv.skip(i as int)[0] == ms@[i as int]@);
            assert(mv.skip(i as int).drop_first() =~= mv.skip(i + 1));
            assert(key@ =~= mv.skip(i as int)[0] + seq![':']);
        }
        if starts_with_chars(line, &key) {
            return Some(ms[i]);
        }
        i += 1;
    }
    None
}

impl OpenApiInfo {
    fn default() -> (r: OpenApiInfo)
        ensures
            r@ == empty_info(),
    {
        OpenApiInfo { title: String::new(), description: String::new(), version: String::new() }
    }

    fn from_yml_string(yml: String) -> (r: OpenApiInfo)
        ensures
            r@ == info_from_yml(yml@),
    {
        let mut info = OpenApiInfo::default();
        let ls = split_lines(&chars_of(yml.as_str()));
        let ghost lv = char_vecs_view(ls@);
        let mut i: usize = 0;
        while i < ls.len()
            invariant
                i <= ls@.len(),
                lv == char_vecs_view(ls@),
                lv.len() == ls@.len(),
                info@ == info_fold(lv.take(i as int)),
            decreases ls@.len() - i,
        {
            proof {
                assert(lv.take(i + 1).drop_last() =~= lv.take(i as int));
            }
            let line = rm_starting_spaces(&ls[i]);
            if starts_with(&line, "title:") {
                info.title = string_from_chars(&rm_yml_key(&line));
            } else if starts_with(&line, "description:") {
                info.description = string_from_chars(&rm_yml_key(&line));
            } else if starts_with(&line, "version:") {
                info.version = string_from_chars(&rm_yml_key(&line));
            }
            i += 1;
        }
        proof {
            assert(lv.take(ls@.len() as int) =~= lv);
        }
        info
    }
}

impl OpenApiServer {
    fn default() -> (r: OpenApiServer)
        ensures
            r@ == empty_server(),
    {
        OpenApiServer { url: String::new(), description: String::new() }
    }

    fn from_yml_string(yml: String) -> (r: OpenApiServer)
        ensures
            r@ == server_from_yml(yml@),
    {
        let mut server = OpenApiServer::default();
        let ls = split_lines(&chars_of(yml.as_str()));
        let ghost lv = char_vecs_view(ls@);
        let mut i: usize = 0;
        while i < ls.len()
            invariant
                i <= ls@.len(),
                lv == char_vecs_view(ls@),
                lv.len() == ls@.len(),
                server@ == server_fold(lv.take(i as int)),
            decreases ls@.len() - i,
        {
            proof {
                assert(lv.take(i + 1).drop_last() =~= lv.take(i as int));
            }
            let l = rm_starting_spaces(&ls[i]);
            if starts_with(&l, "url:") {
                server.url = string_from_chars(&rm_yml_key(&l));
            } else if starts_with(&l, "description") {
                server.description = string_from_chars(&rm_yml_key(&l));
            }
            i += 1;
        }
        proof {
            assert(lv.take(ls@.len() as int) =~= lv);
        }
        server
    }
}

impl OpenApiRequestBody {
    fn default() -> (r: OpenApiRequestBody)
        ensures
            r@ == (RequestBodyModel { required: false, content_type: seq![] }),
    {
        OpenApiRequestBody { required: false, content_type: String::new() }
    }

    /// A body that is neither required nor has a content type.
    fn is_empty(&self) -> (b: bool)
        ensures
            b == (!self@.required && self@.content_type.len() == 0),
    {
        !self.required && self.content_type.as_str().is_empty()
    }

    fn from_yml_string(yml: String) -> (r: OpenApiRequestBody)
        ensures
            r@ == body_from_yml(yml@),
    {
        let mut body = OpenApiRequestBody::default();
        let chars = chars_of(yml.as_str());
        let ls = split_lines(&chars);
        let ghost lv = char_vecs_view(ls@);
        let mut i: usize = 0;
        while i < ls.len()
            invariant
                i <= ls@.len(),
                lv == char_vecs_view(ls@),
                lv.len() == ls@.len(),
                body.required == required_fold(lv.take(i as int)),
                body.content_type@ == Seq::<char>::empty(),
            decreases ls@.len() - i,
        {
            proof {
                assert(lv.take(i + 1).drop_last() =~= lv.take(i as int));
                assert(lv.take(i + 1).last() == ls@[i as int]@);
            }
            if starts_with(&ls[i], "required:") {
                let value = rm_yml_key(&ls[i]);
                body.required = equals_str(&trim(&value), "true");
            }
            i += 1;
        }
        proof {
            assert(lv.take(ls@.len() as int) =~= lv);
        }
        let content_part = return_yml_after_key(&chars, "content:");
        body.content_type = string_from_chars(&first_yml_key(&content_part));
        body
    }
}

impl OpenApiHeader {
    fn default() -> (r: OpenApiHeader)
        ensures
            r@ == empty_header(),
    {
        OpenApiHeader {
            name: String::new(),
            description: String::new(),
            header_type: String::new(),
            example: String::new(),
        }
    }

    fn from_yml_string(yml: String) -> (r: OpenApiHeader)
        ensures
            r@ == header_from_yml(yml@),
    {
        let mut header = OpenApiHeader::default();
        let ls = split_lines(&chars_of(yml.as_str()));
        let ghost lv = char_vecs_view(ls@);
        let mut i: usize = 0;
        while i < ls.len()
            invariant
                i <= ls@.len(),
                lv == char_vecs_view(ls@),
                lv.len() == ls@.len(),
                header@ == header_fold(lv.take(i as int)),
            decreases ls@.len() - i,
        {
            proof {
                assert(lv.take(i + 1).drop_last() =~= lv.take(i as int));
            }
            let l = trim(&ls[i]);
            if l.len() == 0 {
                i += 1;
                continue;
            }
            if starts_with(&l, "description:") {
                header.description = string_from_chars(&rm_yml_key(&l));
            } else if starts_with(&l, "type:") {
                header.header_type = string_from_chars(&rm_yml_key(&l));
            } else if starts_with(&l, "example:") {
                header.example = string_from_chars(&rm_yml_key(&l));
            } else if ends_with(&l, ':') && header.name.as_str().is_empty() {
                header.name = string_from_chars(&trim_end_matches(&l, ':'));
            }
            i += 1;
        }
        proof {
            assert(lv.take(ls@.len() as int) =~= lv);
        }
        header
    }
}

impl OpenApiResponse {
    fn default() -> (r: OpenApiResponse)
        ensures
            r@ == (ResponseModel { code: seq![], description: seq![], content_type: seq![] }),
    {
        OpenApiResponse {
            code: String::new(),
            description: String::new(),
            content_type: String::new(),
        }
    }

    fn from_yml_string(yml: String, patterns: &StatusPatterns) -> (r: OpenApiResponse)
        requires
            patterns.wf(),
        ensures
            r@ == response_from_yml(yml@),
    {
        let mut response = OpenApiResponse::default();
        let mut reading_content = false;
        let mut content_str: Vec<char> = Vec::new();
        let ls = split_lines(&chars_of(yml.as_str()));
        let ghost lv = char_vecs_view(ls@);
        let mut i: usize = 0;
        while i < ls.len()
            invariant
                i <= ls@.len(),
                lv == char_vecs_view(ls@),
                lv.len() == ls@.len(),
                patterns.wf(),
                response_fold(lv.take(i as int)) == (ResponseScan {
                    code: response.code@,
                    description: response.description@,
                    reading_content,
                    content: content_str@,
                }),
                response.content_type@ == Seq::<char>::empty(),
            decreases ls@.len() - i,
        {
            proof {
                assert(lv.take(i + 1).drop_last() =~= lv.take(i as int));
            }
            let l = &ls[i];
            if reading_content {
                push_line(&mut content_str, l);
            }
            if let Some(code) = patterns.status_code(l) {
                response.code = string_from_chars(&code);
            } else if starts_with(l, "description:") {
                response.description = string_from_chars(&rm_yml_key(l));
            } else if starts_with(l, "content:") {
                reading_content = true;
            }
            i += 1;
        }
        proof {
            assert(lv.take(ls@.len() as int) =~= lv);
        }
        response.content_type = string_from_chars(&first_yml_key(&content_str));
        response
    }
}

// ---------------------------------------------------------------------------
// Reading a method block
// ---------------------------------------------------------------------------
/// `list` with `block` added when `block` is not empty (what
/// `flush_header_block` leaves in the list).
pub open spec fn flushed(list: Seq<Seq<char>>, block: Seq<char>) -> Seq<Seq<char>> {
    if block.len() > 0 {
        list.push(block)
    } else {
        list
    }
}

/// Reading state of a method block.
pub struct MethodScan {
    pub method: Seq<char>,
    pub summary: Seq<char>,
    pub description: Seq<char>,
    pub res_list: Seq<Seq<char>>,
    pub res_str: Seq<char>,
    pub in_responses: bool,
    pub reading_body: bool,
    pub body_str: Seq<char>,
    pub reading_headers: bool,
    pub header_list: Seq<Seq<char>>,
    pub header_block: Seq<char>,
}

/// The state before the first line of a method block.
pub open spec fn method_scan_start() -> MethodScan {
    MethodScan {
        method: seq![],
        summary: seq![],
        description: seq![],
        res_list: seq![],
        res_str: seq![],
        in_responses: false,
        reading_body: false,
        body_str: seq![],
        reading_headers: false,
        header_list: seq![],
        header_block: seq![],
    }
}

/// The method name is taken from the first line that starts with `m:` for an
/// HTTP method `m`.
pub open spec fn scan_method_name(st: MethodScan, l: Seq<char>) -> MethodScan {
    if st.method.len() == 0 {
        match first_method_key(l, http_methods()) {
            Some(m) => MethodScan { method: m, ..st },
            None => st,
        }
    } else {
        st
    }
}

/// Leaving the headers: the header block read so far joins the list.
pub open spec fn close_headers(st: MethodScan) -> MethodScan {
    if st.reading_headers {
        MethodScan {
            header_list: flushed(st.header_list, st.header_block),
            header_block: seq![],
            ..st
        }
    } else {
        st
    }
}

/// The `headers:`, `requestBody` and `responses:` lines switch the section
/// being read.
pub open spec fn scan_sections(st: MethodScan, l: Seq<char>) -> MethodScan {
    let a = if has_prefix(l, "headers:"@) {
        MethodScan { reading_headers: true, reading_body: false, ..st }
    } else if has_prefix(l, "requestBody"@) {
        MethodScan { reading_body: true, reading_headers: false, ..close_headers(st) }
    } else {
        st
    };
    if has_prefix(l, "responses:"@) {
        MethodScan {
            in_responses: true,
            reading_body: false,
            reading_headers: false,
            ..close_headers(a)
        }
    } else {
        a
    }
}

/// A trimmed line that opens a new header, like `X-Rate-Limit:`.
pub open spec fn is_new_header_line(t: Seq<char>) -> bool {
    &&& ends_with_char(t, ':')
    &&& !has_prefix(t, "description:"@)
    &&& !has_prefix(t, "type:"@)
    &&& !has_prefix(t, "example:"@)
}

/// Lines of the request body and of the headers are collected.
pub open spec fn scan_body_and_headers(st: MethodScan, l: Seq<char>) -> MethodScan {
    let a = if st.reading_body {
        MethodScan { body_str: st.body_str + with_newline(l), ..st }
    } else {
        st
    };
    if a.reading_headers && !has_prefix(l, "headers:"@) && trim_white_space(l).len() > 0 {
        let b = if is_new_header_line(trim_white_space(l)) {
            MethodScan {
                header_list: flushed(a.header_list, a.header_block),
                header_block: seq![],
                ..a
            }
        } else {
            a
        };
        MethodScan { header_block: b.header_block + with_newline(l), ..b }
    } else {
        a
    }
}

/// Before the responses and outside the headers, `summary:` and
/// `description` lines set the method's summary and description.
pub open spec fn scan_fields(st: MethodScan, l: Seq<char>) -> MethodScan {
    if !st.in_responses && !st.reading_headers {
        let a = if has_prefix(l, "summary:"@) {
            MethodScan { summary: yml_value(l), ..st }
        } else {
            st
        };
        if has_prefix(l, "description"@) {
            MethodScan { description: yml_value(l), ..a }
        } else {
            a
        }
    } else {
        st
    }
}

/// A status line starts a new response block; lines outside the body and
/// the headers are collected into the current response block.
pub open spec fn scan_responses(st: MethodScan, l: Seq<char>) -> MethodScan {
    let a = if quoted_status(l) && st.res_str.len() > 0 {
        MethodScan { res_list: st.res_list.push(st.res_str), res_str: seq![], ..st }
    } else {
        st
    };
    if !a.reading_body && !a.reading_headers {
        MethodScan { res_str: a.res_str + with_newline(l), ..a }
    } else {
        a
    }
}

/// How one line of a method block changes the reading state.
pub open spec fn method_step(st: MethodScan, l: Seq<char>) -> MethodScan {
    scan_responses(
        scan_fields(scan_body_and_headers(scan_sections(scan_method_name(st, l), l), l), l),
        l,
    )
}

/// The reading state after the lines `ls` of a method block.
pub open spec fn method_fold(ls: Seq<Seq<char>>) -> MethodScan
    decreases ls.len(),
{
    if ls.len() == 0 {
        method_scan_start()
    } else {
        method_step(method_fold(ls.drop_last()), ls.last())
    }
}

/// The headers read from header blocks.
pub open spec fn headers_from_yml(blocks: Seq<Seq<char>>) -> Seq<HeaderModel> {
    blocks.map_values(|b: Seq<char>| header_from_yml(b))
}

/// The responses read from response blocks.
pub open spec fn responses_from_yml(blocks: Seq<Seq<char>>) -> Seq<ResponseModel> {
    blocks.map_values(|b: Seq<char>| response_from_yml(b))
}

/// The method read from the text `yml` of a method block.  The first response
/// block is the method's preamble (its name, summary, description and the
/// `responses:` line), not a response.
pub open spec fn method_from_yml(yml: Seq<char>) -> MethodModel {
    let st = method_fold(lines_of(yml));
    let res_list = if st.res_str.len() > 0 {
        st.res_list.push(st.res_str)
    } else {
        st.res_list
    };
    MethodModel {
        method: st.method,
        summary: st.summary,
        description: st.description,
        body: body_from_yml(st.body_str),
        header: headers_from_yml(flushed(st.header_list, st.header_block)),
        responses: responses_from_yml(skip_first_line(res_list)),
    }
}

/// Reading state of a method block, held in vectors.
struct MethodScanner {
    method: Vec<char>,
    summary: Vec<char>,
    description: Vec<char>,
    res_list: Vec<Vec<char>>,
    res_str: Vec<char>,
    in_responses: bool,
    reading_body: bool,
    body_str: Vec<char>,
    reading_headers: bool,
    header_list: Vec<Vec<char>>,
    header_block: Vec<char>,
}

impl View for MethodScanner {
    type V = MethodScan;

    closed spec fn view(&self) -> MethodScan {
        MethodScan {
            method: self.method@,
            summary: self.summary@,
            description: self.description@,
            res_list: char_vecs_view(self.res_list@),
            res_str: self.res_str@,
            in_responses: self.in_responses,
            reading_body: self.reading_body,
            body_str: self.body_str@,
            reading_headers: self.reading_headers,
            header_list: char_vecs_view(self.header_list@),
            header_block: self.header_block@,
        }
    }
}

/// Closes the header block being read: when it is not empty it joins the
/// list; it is empty afterwards.
fn flush_header_block(header_list: &mut Vec<Vec<char>>, header_block: &mut Vec<char>)
    ensures
        char_vecs_view(final(header_list)@) == flushed(
            char_vecs_view(old(header_list)@),
            old(header_block)@,
        ),
        final(header_block)@ == Seq::<char>::empty(),
{
    if header_block.len() > 0 {
        let mut block: Vec<char> = Vec::new();
        std::mem::swap(&mut block, header_block);
        header_list.push(block);
        proof {
            assert(char_vecs_view(header_list@) =~= flushed(
                char_vecs_view(old(header_list)@),
                old(header_block)@,
            ));
        }
    } else {
        proof {
            assert(header_block@ =~= Seq::<char>::empty());
        }
    }
}

impl MethodScanner {
    fn new() -> (r: MethodScanner)
        ensures
            r@ == method_scan_start(),
    {
        let r = MethodScanner {
            method: Vec::new(),
            summary: Vec::new(),
            description: Vec::new(),
            res_list: Vec::new(),
            res_str: Vec::new(),
            in_responses: false,
            reading_body: false,
            body_str: Vec::new(),
            reading_headers: false,
            header_list: Vec::new(),
            header_block: Vec::new(),
        };
        proof {
            assert(char_vecs_view(r.res_list@) =~= Seq::<Seq<char>>::empty());
            assert(char_vecs_view(r.header_list@) =~= Seq::<Seq<char>>::empty());
        }
        r
    }

    fn close_headers(&mut self)
        ensures
            final(self)@ == close_headers(old(self)@),
    {
        if self.reading_headers {
            flush_header_block(&mut self.header_list, &mut self.header_block);
        }
    }

    fn scan_method_name(&mut self, l: &[char])
        ensures
            final(self)@ == scan_method_name(old(self)@, l@),
    {
        if self.method.len() == 0 {
            match method_key_of(l) {
                Some(m) => {
                    self.method = chars_of(m);
                },
                None => {},
            }
        }
    }

    fn scan_sections(&mut self, l: &[char])
        ensures
            final(self)@ == scan_sections(old(self)@, l@),
    {
        if starts_with(l, "headers:") {
            self.reading_headers = true;
            self.reading_body = false;
        } else if starts_with(l, "requestBody") {
            self.reading_body = true;
            self.close_headers();
            self.reading_headers = false;
        }
        if starts_with(l, "responses:") {
            self.in_responses = true;
            self.reading_body = false;
            self.close_headers();
            self.reading_headers = false;
        }
    }

    fn scan_body_and_headers(&mut self, l: &[char])
        ensures
            final(self)@ == scan_body_and_headers(old(self)@, l@),
    {
        if self.reading_body {
            push_line(&mut self.body_str, l);
        }
        if self.reading_headers && !starts_with(l, "headers:") {
            let trimmed = trim(l);
            if trimmed.len() > 0 {
                let is_new_header = ends_with(&trimmed, ':') && !starts_with(
                    &trimmed,
                    "description:",
                ) && !starts_with(&trimmed, "type:") && !starts_with(&trimmed, "example:");
                if is_new_header {
                    flush_header_block(&mut self.header_list, &mut self.header_block);
                }
                push_line(&mut self.header_block, l);
            }
        }
    }

    fn scan_fields(&mut self, l: &[char])
        ensures
            final(self)@ == scan_fields(old(self)@, l@),
    {
        if !self.in_responses && !self.reading_headers {
            if starts_with(l, "summary:") {
                self.summary = rm_yml_key(l);
            }
            if starts_with(l, "description") {
                self.description = rm_yml_key(l);
            }
        }
    }

    fn scan_responses(&mut self, l: &[char], patterns: &StatusPatterns)
        requires
            patterns.wf(),
        ensures
            final(self)@ == scan_responses(old(self)@, l@),
    {
        let is_new_res = patterns.is_status_line(l);
        if is_new_res && self.res_str.len() > 0 {
            let mut block: Vec<char> = Vec::new();
            std::mem::swap(&mut block, &mut self.res_str);
            self.res_list.push(block);
            proof {
                assert(char_vecs_view(self.res_list@) =~= char_vecs_view(
                    old(self).res_list@,
                ).push(old(self).res_str@));
            }
        }
        if !self.reading_body && !self.reading_headers {
            push_line(&mut self.res_str, l);
        }
    }

    fn step(&mut self, l: &[char], patterns: &StatusPatterns)
        requires
            patterns.wf(),
        ensures
            final(self)@ == method_step(old(self)@, l@),
    {
        self.scan_method_name(l);
        self.scan_sections(l);
        self.scan_body_and_headers(l);
        self.scan_fields(l);
        self.scan_responses(l, patterns);
    }
}

impl OpenApiMethod {
    fn default() -> (r: OpenApiMethod)
        ensures
            r@ == (MethodModel {
                method: seq![],
                summary: seq![],
                description: seq![],
                body: RequestBodyModel { required: false, content_type: seq![] },
                header: seq![],
                responses: seq![],
            }),
    {
        let r = OpenApiMethod {
            method: String::new(),
            summary: String::new(),
            description: String::new(),
            body: OpenApiRequestBody::default(),
            header: Vec::new(),
            responses: Vec::new(),
        };
        proof {
            assert(headers_view(r.header@) =~= Seq::<HeaderModel>::empty());
            assert(responses_view(r.responses@) =~= Seq::<ResponseModel>::empty());
        }
        r
    }

    fn from_yml_string(yml: String, patterns: &StatusPatterns) -> (r: OpenApiMethod)
        requires
            patterns.wf(),
        ensures
            r@ == method_from_yml(yml@),
    {
        let ls = split_lines(&chars_of(yml.as_str()));
        let ghost lv = char_vecs_view(ls@);
        let mut sc = MethodScanner::new();
        let mut i: usize = 0;
        while i < ls.len()
            invariant
                i <= ls@.len(),
                lv == char_vecs_view(ls@),
                lv.len() == ls@.len(),
                patterns.wf(),
                sc@ == method_fold(lv.take(i as int)),
            decreases ls@.len() - i,
        {
            proof {
                assert(lv.take(i + 1).drop_last() =~= lv.take(i as int));
            }
            sc.step(&ls[i], patterns);
            i += 1;
        }
        proof {
            assert(lv.take(ls@.len() as int) =~= lv);
        }
        let ghost st = sc@;
        let mut res_list = sc.res_list;
        if sc.res_str.len() > 0 {
            res_list.push(sc.res_str);
        }
        let ghost rl = if st.res_str.len() > 0 {
            st.res_list.push(st.res_str)
        } else {
            st.res_list
        };
        assert(char_vecs_view(res_list@) =~= rl);
        let mut header_list = sc.header_list;
        let mut header_block = sc.header_block;
        flush_header_block(&mut header_list, &mut header_block);

        let body = OpenApiRequestBody::from_yml_string(string_from_chars(&sc.body_str));
        let header = headers_from_blocks(&header_list);
        let responses = responses_after_first(&res_list, patterns);
        OpenApiMethod {
            method: string_from_chars(&sc.method),
            summary: string_from_chars(&sc.summary),
            description: string_from_chars(&sc.description),
            body,
            header,
            responses,
        }
    }
}

/// The headers read from the blocks in `blocks`.
fn headers_from_blocks(blocks: &Vec<Vec<char>>) -> (r: Vec<OpenApiHeader>)
    ensures
        headers_view(r@) == headers_from_yml(char_vecs_view(blocks@)),
{
    let ghost bv = char_vecs_view(blocks@);
    let mut r: Vec<OpenApiHeader> = Vec::new();
    let mut i: usize = 0;
    proof {
        assert(headers_view(r@) =~= headers_from_yml(bv.take(0)));
    }
    while i < blocks.len()
        invariant
            i <= blocks@.len(),
            bv == char_vecs_view(blocks@),
            bv.len() == blocks@.len(),
            headers_view(r@) == headers_from_yml(bv.take(i as int)),
        decreases blocks@.len() - i,
    {
        let h = OpenApiHeader::from_yml_string(string_from_chars(&blocks[i]));
        let ghost prev = r@;
        r.push(h);
        proof {
            assert(bv.take(i + 1) =~= bv.take(i as int).push(bv[i as int]));
            assert(r@ =~= prev.push(h));
            assert(headers_view(r@) =~= headers_view(prev).push(h@));
            assert(headers_from_yml(bv.take(i + 1)) =~= headers_from_yml(bv.take(i as int)).push(
                header_from_yml(bv[i as int]),
            ));
        }
        i += 1;
    }
    proof {
        assert(bv.take(blocks@.len() as int) =~= bv);
    }
    r
}

/// The responses read from the blocks of `blocks` after the first one.
fn responses_after_first(blocks: &Vec<Vec<char>>, patterns: &StatusPatterns) -> (r: Vec<
    OpenApiResponse,
>)
    requires
        patterns.wf(),
    ensures
        responses_view(r@) == responses_from_yml(skip_first_line(char_vecs_view(blocks@))),
{
    let ghost bv = char_vecs_view(blocks@);
    let mut r: Vec<OpenApiResponse> = Vec::new();
    if blocks.len() == 0 {
        proof {
            assert(responses_view(r@) =~= responses_from_yml(skip_first_line(bv)));
        }
        return r;
    }
    let mut i: usize = 1;
    proof {
        assert(responses_view(r@) =~= responses_from_yml(bv.subrange(1, 1)));
    }
    while i < blocks.len()
        invariant
            1 <= i <= blocks@.len(),
            bv == char_vecs_view(blocks@),
            bv.len() == blocks@.len(),
            patterns.wf(),
            responses_view(r@) == responses_from_yml(bv.subrange(1, i as int)),
        decreases blocks@.len() - i,
    {
        let x = OpenApiResponse::from_yml_string(string_from_chars(&blocks[i]), patterns);
        let ghost prev = r@;
        r.push(x);
        proof {
            assert(bv.subrange(1, i + 1) =~= bv.subrange(1, i as int).push(bv[i as int]));
            assert(r@ =~= prev.push(x));
            assert(responses_view(r@) =~= responses_view(prev).push(x@));
            assert(responses_from_yml(bv.subrange(1, i + 1)) =~= responses_from_yml(
                bv.subrange(1, i as int),
            ).push(response_from_yml(bv[i as int])));
        }
        i += 1;
    }
    proof {
        assert(bv.subrange(1, blocks@.len() as int) =~= skip_first_line(bv));
    }
    r
}

// ---------------------------------------------------------------------------
// Reading a path and a whole document
// ---------------------------------------------------------------------------
/// Cutting the lines of a path block into method blocks: items so far and
/// the block being read.
pub open spec fn method_chunk_scan(ls: Seq<Seq<char>>) -> (Seq<Seq<char>>, Seq<char>)
    decreases ls.len(),
{
    if ls.len() == 0 {
        (seq![], seq![])
    } else {
        let (items, cur) = method_chunk_scan(ls.drop_last());
        let l = ls.last();
        if is_method_line(l) && cur.len() > 0 {
            (items.push(cur), with_newline(l))
        } else {
            (items, cur + with_newline(l))
        }
    }
}

/// The method blocks of `text`: a new block starts at each line that opens a
/// method (`get:`, `post:`, ...), the lines before the first such line form a
/// block of their own, and each line keeps its line break.
pub open spec fn method_chunks(text: Seq<char>) -> Seq<Seq<char>> {
    let (items, cur) = method_chunk_scan(lines_of(text));
    flushed(items, cur)
}

/// The methods read from method blocks.
pub open spec fn methods_from_yml(blocks: Seq<Seq<char>>) -> Seq<MethodModel> {
    blocks.map_values(|b: Seq<char>| method_from_yml(b))
}

/// The path read from the text `yml` of a path block: its name is the text
/// before the first `:`, and its methods are read from the lines after the
/// first one.
pub open spec fn path_from_yml(yml: Seq<char>) -> PathModel {
    PathModel {
        path: before_char(yml, ':'),
        methods: methods_from_yml(
            method_chunks(join_with(skip_first_line(lines_of(yml)), seq!['\n'])),
        ),
    }
}

/// Cutting a list into entries: entries so far and the entry being read.
pub open spec fn list_scan(ls: Seq<Seq<char>>, sep: Seq<char>) -> (Seq<Seq<char>>, Seq<char>)
    decreases ls.len(),
{
    if ls.len() == 0 {
        (seq![], seq![])
    } else {
        let (items, cur) = list_scan(ls.drop_last(), sep);
        let t = trim_start_spaces(ls.last());
        if has_prefix(t, sep) {
            (flushed(items, cur), with_newline(drop_first_char(t)))
        } else {
            (items, cur + with_newline(t))
        }
    }
}

/// The entries of a YAML list: the lines of `yml` with their leading spaces
/// dropped, cut before each line that starts with `sep` (whose first
/// character is dropped), each line followed by a line break; the first
/// entry (what stands before the first cut, or the first entry itself when
/// nothing does) is left out.
pub open spec fn yml_list_by_separator(yml: Seq<char>, sep: Seq<char>) -> Seq<Seq<char>> {
    let (items, cur) = list_scan(lines_of(yml), sep);
    skip_first_line(flushed(items, cur))
}

/// Reading state of a whole document: the text of each section and which
/// section is being read.
pub struct TopScan {
    pub openapi: Seq<char>,
    pub info: Seq<char>,
    pub servers: Seq<char>,
    pub paths: Seq<char>,
    pub iter_info: bool,
    pub iter_servers: bool,
    pub iter_paths: bool,
}

/// How one line of the document changes the reading state.
pub open spec fn top_step(st: TopScan, line: Seq<char>) -> TopScan {
    let a = if has_prefix(line, "openapi: "@) {
        TopScan { openapi: st.openapi + yml_value(line), ..st }
    } else if has_prefix(line, "info"@) {
        TopScan { iter_info: true, ..st }
    } else if has_prefix(line, "servers"@) {
        TopScan { iter_servers: true, iter_info: false, ..st }
    } else if has_prefix(line, "paths:"@) {
        TopScan { iter_paths: true, iter_servers: false, ..st }
    } else {
        st
    };
    if a.iter_info {
        TopScan { info: a.info + with_newline(line), ..a }
    } else if a.iter_servers {
        TopScan { servers: a.servers + with_newline(line), ..a }
    } else if a.iter_paths {
        TopScan { paths: a.paths + with_newline(line), ..a }
    } else {
        a
    }
}

/// The reading state after the lines `ls` of a document.
pub open spec fn top_fold(ls: Seq<Seq<char>>) -> TopScan
    decreases ls.len(),
{
    if ls.len() == 0 {
        TopScan {
            openapi: seq![],
            info: seq![],
            servers: seq![],
            paths: seq![],
            iter_info: false,
            iter_servers: false,
            iter_paths: false,
        }
    } else {
        top_step(top_fold(ls.drop_last()), ls.last())
    }
}

/// The servers read from server entries.
pub open spec fn servers_from_yml(entries: Seq<Seq<char>>) -> Seq<ServerModel> {
    entries.map_values(|e: Seq<char>| server_from_yml(e))
}

/// The paths read from path blocks.
pub open spec fn paths_from_yml(blocks: Seq<Seq<char>>) -> Seq<PathModel> {
    blocks.map_values(|b: Seq<char>| path_from_yml(b))
}

/// The document read from the text `yml`.
pub open spec fn openapi_from_yml(yml: Seq<char>) -> OpenApiModel {
    let st = top_fold(lines_of(yml));
    OpenApiModel {
        openapi: st.openapi,
        info: info_from_yml(st.info),
        servers: servers_from_yml(yml_list_by_separator(st.servers, "-"@)),
        paths: paths_from_yml(yml_list_by_separator(st.paths, "/"@)),
    }
}

/// Cuts a YAML list into its entries (see [`yml_list_by_separator`]).
fn yml_list_2_vec_by_separator(yml: String, separator: &str) -> (r: Vec<String>)
    ensures
        strings_view(r@) == yml_list_by_separator(yml@, separator@),
{
    let ls = split_lines(&chars_of(yml.as_str()));
    let ghost lv = char_vecs_view(ls@);
    let mut yml_list: Vec<String> = Vec::new();
    let mut to_append: Vec<char> = Vec::new();
    let mut i: usize = 0;
    proof {
        assert(strings_view(yml_list@) =~= Seq::<Seq<char>>::empty());
    }
    while i < ls.len()
        invariant
            i <= ls@.len(),
            lv == char_vecs_view(ls@),
            lv.len() == ls@.len(),
            list_scan(lv.take(i as int), separator@) == (strings_view(yml_list@), to_append@),
        decreases ls@.len() - i,
    {
        proof {
            assert(lv.take(i + 1).drop_last() =~= lv.take(i as int));
        }
        let trimmed = rm_starting_spaces(&ls[i]);
        if starts_with(&trimmed, separator) {
            if to_append.len() > 0 {
                let ghost prev = yml_list@;
                yml_list.push(string_from_chars(&to_append));
                proof {
                    assert(strings_view(yml_list@) =~= strings_view(prev).push(to_append@));
                }
                to_append = Vec::new();
            }
            let rest = if trimmed.len() > 0 {
                chars_from(&trimmed, 1)
            } else {
                Vec::new()
            };
            proof {
                assert(rest@ =~= drop_first_char(trimmed@));
            }
            push_line(&mut to_append, &rest);
            proof {
                assert(to_append@ =~= with_newline(drop_first_char(trimmed@)));
            }
        } else {
            push_line(&mut to_append, &trimmed);
        }
        i += 1;
    }
    proof {
        assert(lv.take(ls@.len() as int) =~= lv);
    }
    if to_append.len() > 0 {
        let ghost prev = yml_list@;
        yml_list.push(string_from_chars(&to_append));
        proof {
            assert(strings_view(yml_list@) =~= strings_view(prev).push(to_append@));
        }
    }
    if yml_list.len() > 0 {
        let ghost prev = yml_list@;
        yml_list.remove(0);
        proof {
            assert(strings_view(yml_list@) =~= strings_view(prev).drop_first());
        }
    }
    yml_list
}

/// Cuts a YAML list of `-` entries into its entries.
fn yml_list_2_vec(yml: String) -> (r: Vec<String>)
    ensures
        strings_view(r@) == yml_list_by_separator(yml@, "-"@),
{
    yml_list_2_vec_by_separator(yml, "-")
}

/// The methods read from the blocks in `blocks`.
fn methods_from_blocks(blocks: &Vec<Vec<char>>, patterns: &StatusPatterns) -> (r: Vec<
    OpenApiMethod,
>)
    requires
        patterns.wf(),
    ensures
        methods_view(r@) == methods_from_yml(char_vecs_view(blocks@)),
{
    let ghost bv = char_vecs_view(blocks@);
    let mut r: Vec<OpenApiMethod> = Vec::new();
    let mut i: usize = 0;
    proof {
        assert(methods_view(r@) =~= methods_from_yml(bv.take(0)));
    }
    while i < blocks.len()
        invariant
            i <= blocks@.len(),
            bv == char_vecs_view(blocks@),
            bv.len() == blocks@.len(),
            patterns.wf(),
            methods_view(r@) == methods_from_yml(bv.take(i as int)),
        decreases blocks@.len() - i,
    {
        let m = OpenApiMethod::from_yml_string(string_from_chars(&blocks[i]), patterns);
        let ghost prev = r@;
        r.push(m);
        proof {
            assert(bv.take(i + 1) =~= bv.take(i as int).push(bv[i as int]));
            assert(r@ =~= prev.push(m));
            assert(methods_view(r@) =~= methods_view(prev).push(m@));
            assert(methods_from_yml(bv.take(i + 1)) =~= methods_from_yml(bv.take(i as int)).push(
                method_from_yml(bv[i as int]),
            ));
        }
        i += 1;
    }
    proof {
        assert(bv.take(blocks@.len() as int) =~= bv);
    }
    r
}

impl OpenApiPath {
    fn default() -> (r: OpenApiPath)
        ensures
            r@ == (PathModel { path: seq![], methods: seq![] }),
    {
        let r = OpenApiPath { path: String::new(), methods: Vec::new() };
        proof {
            assert(methods_view(r.methods@) =~= Seq::<MethodModel>::empty());
        }
        r
    }

    fn from_yml_string(yml: String, patterns: &StatusPatterns) -> (r: OpenApiPath)
        requires
            patterns.wf(),
        ensures
            r@ == path_from_yml(yml@),
    {
        let chars = chars_of(yml.as_str());
        let k = find_char(&chars, ':');
        proof {
            lemma_char_pos(chars@, ':');
        }
        let path_str = chars_upto(&chars, k);

        // the lines after the path's own line
        let ls = split_lines(&chars);
        let methods_str = if ls.len() > 0 {
            join_lines_from(&ls, 1)
        } else {
            Vec::new()
        };
        proof {
            let lv = char_vecs_view(ls@);
            if lv.len() > 0 {
                assert(lv.skip(1) =~= skip_first_line(lv));
            } else {
                assert(methods_str@ =~= join_with(skip_first_line(lv), seq!['\n']));
            }
        }

        let mls = split_lines(&methods_str);
        let ghost mv = char_vecs_view(mls@);
        let mut method_list: Vec<Vec<char>> = Vec::new();
        let mut method_str: Vec<char> = Vec::new();
        let mut i: usize = 0;
        proof {
            assert(char_vecs_view(method_list@) =~= Seq::<Seq<char>>::empty());
        }
        while i < mls.len()
            invariant
                i <= mls@.len(),
                mv == char_vecs_view(mls@),
                mv.len() == mls@.len(),
                method_chunk_scan(mv.take(i as int)) == (
                    char_vecs_view(method_list@),
                    method_str@,
                ),
            decreases mls@.len() - i,
        {
            proof {
                assert(mv.take(i + 1).drop_last() =~= mv.take(i as int));
            }
            let l = &mls[i];
            let is_new_method = method_key_of(l).is_some();
            if is_new_method && method_str.len() > 0 {
                let mut block: Vec<char> = Vec::new();
                std::mem::swap(&mut block, &mut method_str);
                let ghost prev = method_list@;
                method_list.push(block);
                proof {
                    assert(char_vecs_view(method_list@) =~= char_vecs_view(prev).push(block@));
                }
            }
            push_line(&mut method_str, l);
            i += 1;
        }
        proof {
            assert(mv.take(mls@.len() as int) =~= mv);
        }
        if method_str.len() > 0 {
            let ghost prev = method_list@;
            method_list.push(method_str);
            proof {
                assert(char_vecs_view(method_list@) =~= char_vecs_view(prev).push(method_str@));
            }
        }
        let methods = methods_from_blocks(&method_list, patterns);
        OpenApiPath { path: string_from_chars(&path_str), methods }
    }
}

/// The servers read from the entries in `entries`.
fn servers_from_entries(entries: Vec<String>) -> (r: Vec<OpenApiServer>)
    ensures
        servers_view(r@) == servers_from_yml(strings_view(entries@)),
{
    let ghost ev = strings_view(entries@);
    let mut r: Vec<OpenApiServer> = Vec::new();
    let mut i: usize = 0;
    proof {
        assert(servers_view(r@) =~= servers_from_yml(ev.take(0)));
    }
    while i < entries.len()
        invariant
            i <= entries@.len(),
            ev == strings_view(entries@),
            ev.len() == entries@.len(),
            servers_view(r@) == servers_from_yml(ev.take(i as int)),
        decreases entries@.len() - i,
    {
        let x = OpenApiServer::from_yml_string(entries[i].clone());
        let ghost prev = r@;
        r.push(x);
        proof {
            assert(ev.take(i + 1) =~= ev.take(i as int).push(ev[i as int]));
            assert(r@ =~= prev.push(x));
            assert(servers_view(r@) =~= servers_view(prev).push(x@));
            assert(servers_from_yml(ev.take(i + 1)) =~= servers_from_yml(ev.take(i as int)).push(
                server_from_yml(ev[i as int]),
            ));
        }
        i += 1;
    }
    proof {
        assert(ev.take(entries@.len() as int) =~= ev);
    }
    r
}

/// The paths read from the blocks in `blocks`.
fn paths_from_blocks(blocks: Vec<String>, patterns: &StatusPatterns) -> (r: Vec<OpenApiPath>)
    requires
        patterns.wf(),
    ensures
        paths_view(r@) == paths_from_yml(strings_view(blocks@)),
{
    let ghost bv = strings_view(blocks@);
    let mut r: Vec<OpenApiPath> = Vec::new();
    let mut i: usize = 0;
    proof {
        assert(paths_view(r@) =~= paths_from_yml(bv.take(0)));
    }
    while i < blocks.len()
        invariant
            i <= blocks@.len(),
            bv == strings_view(blocks@),
            bv.len() == blocks@.len(),
            patterns.wf(),
            paths_view(r@) == paths_from_yml(bv.take(i as int)),
        decreases blocks@.len() - i,
    {
        let x = OpenApiPath::from_yml_string(blocks[i].clone(), patterns);
        let ghost prev = r@;
        r.push(x);
        proof {
            assert(bv.take(i + 1) =~= bv.take(i as int).push(bv[i as int]));
            assert(r@ =~= prev.push(x));
            assert(paths_view(r@) =~= paths_view(prev).push(x@));
            assert(paths_from_yml(bv.take(i + 1)) =~= paths_from_yml(bv.take(i as int)).push(
                path_from_yml(bv[i as int]),
            ));
        }
        i += 1;
    }
    proof {
        assert(bv.take(blocks@.len() as int) =~= bv);
    }
    r
}

impl OpenApi {
    /// Reads a document with the status-line patterns already compiled.
    pub fn from_yml_with(yml: &String, patterns: &StatusPatterns) -> (r: OpenApi)
        requires
            patterns.wf(),
        ensures
            r@ == openapi_from_yml(yml@),
    {
        let mut openapi_str: Vec<char> = Vec::new();
        let mut info_str: Vec<char> = Vec::new();
        let mut servers_str: Vec<char> = Vec::new();
        let mut paths_str: Vec<char> = Vec::new();
        let mut iter_info = false;
        let mut iter_servers = false;
        let mut iter_paths = false;

        let ls = split_lines(&chars_of(yml.as_str()));
        let ghost lv = char_vecs_view(ls@);
        let mut i: usize = 0;
        while i < ls.len()
            invariant
                i <= ls@.len(),
                lv == char_vecs_view(ls@),
                lv.len() == ls@.len(),
                top_fold(lv.take(i as int)) == (TopScan {
                    openapi: openapi_str@,
                    info: info_str@,
                    servers: servers_str@,
                    paths: paths_str@,
                    iter_info,
                    iter_servers,
                    iter_paths,
                }),
            decreases ls@.len() - i,
        {
            proof {
                assert(lv.take(i + 1).drop_last() =~= lv.take(i as int));
            }
            let line = &ls[i];
            if starts_with(line, "openapi: ") {
                push_chars(&mut openapi_str, &rm_yml_key(line));
            } else if starts_with(line, "info") {
                iter_info = true;
            } else if starts_with(line, "servers") {
                iter_servers = true;
                iter_info = false;
            } else if starts_with(line, "paths:") {
                iter_paths = true;
                iter_servers = false;
            }
            if iter_info {
                push_line(&mut info_str, line);
            } else if iter_servers {
                push_line(&mut servers_str, line);
            } else if iter_paths {
                push_line(&mut paths_str, line);
            }
            i += 1;
        }
        proof {
            assert(lv.take(ls@.len() as int) =~= lv);
        }
        let info = OpenApiInfo::from_yml_string(string_from_chars(&info_str));
        let servers = servers_from_entries(yml_list_2_vec(string_from_chars(&servers_str)));
        let paths = paths_from_blocks(
            yml_list_2_vec_by_separator(string_from_chars(&paths_str), "/"),
            patterns,
        );
        OpenApi { openapi: string_from_chars(&openapi_str), info, servers, paths }
    }

    /// Reads a document from its YAML text.  The status-line patterns are
    /// compiled on the way, so callers must know that `regex` accepts them
    /// (see [`Self::try_from_yml_string`] for a version that checks).
    pub fn from_yml_string(yml: &String) -> (r: OpenApi)
        requires
            regex_compiles(STATUS_LINE@),
            regex_compiles(STATUS_CODE@),
        ensures
            r@ == openapi_from_yml(yml@),
    {
        match StatusPatterns::compile() {
            Some(p) => OpenApi::from_yml_with(yml, &p),
            None => OpenApi {
                openapi: String::new(),
                info: OpenApiInfo::default(),
                servers: Vec::new(),
                paths: Vec::new(),
            },
        }
    }

    /// Reads a document from its YAML text; `None` exactly when `regex`
    /// refuses one of the status-line patterns.
    pub fn try_from_yml_string(yml: &String) -> (r: Option<OpenApi>)
        ensures
            r is Some <==> (regex_compiles(STATUS_LINE@) && regex_compiles(STATUS_CODE@)),
            r matches Some(a) ==> a@ == openapi_from_yml(yml@),
    {
        match StatusPatterns::compile() {
            Some(_) => Some(OpenApi::from_yml_string(yml)),
            None => None,
        }
    }
}

// ---------------------------------------------------------------------------
// Writing
// ---------------------------------------------------------------------------
/// The text of an info section.
pub open spec fn info_text(i: InfoModel) -> Seq<char> {
    "info:\n  title: "@ + i.title + "\n  description: "@ + i.description + "\n  version: "@
        + i.version
}

/// The text of a server entry.
pub open spec fn server_text(s: ServerModel) -> Seq<char> {
    "  - url: "@ + s.url + "\n    description: "@ + s.description
}

/// The lines of a response: its quoted code, then its description and
/// content type when they are not empty.
pub open spec fn response_parts(r: ResponseModel) -> Seq<Seq<char>> {
    let p0 = seq!["        \""@ + r.code + "\":"@];
    let p1 = if r.description.len() > 0 {
        p0.push("          description: "@ + r.description)
    } else {
        p0
    };
    if r.content_type.len() > 0 {
        p1.push("          content:"@).push("            "@ + r.content_type + ": {}"@)
    } else {
        p1
    }
}

/// The text of a response.
pub open spec fn response_text(r: ResponseModel) -> Seq<char> {
    join_with(response_parts(r), "\n"@)
}

/// The lines of a header: its name, then its description, type and example
/// when they are not empty.
pub open spec fn header_parts(h: HeaderModel) -> Seq<Seq<char>> {
    let p0 = seq!["        "@ + h.name + ":"@];
    let p1 = if h.description.len() > 0 {
        p0.push("          description: "@ + h.description)
    } else {
        p0
    };
    let p2 = if h.header_type.len() > 0 {
        p1.push("          type: "@ + h.header_type)
    } else {
        p1
    };
    if h.example.len() > 0 {
        p2.push("          example: "@ + h.example)
    } else {
        p2
    }
}

/// The text of a header.
pub open spec fn header_text(h: HeaderModel) -> Seq<char> {
    join_with(header_parts(h), "\n"@)
}

/// The lines of a request body: its key, then `required: true` when it is
/// required, then its content type when that is not empty.
pub open spec fn body_parts(b: RequestBodyModel) -> Seq<Seq<char>> {
    let p0 = seq!["      requestBody:"@];
    let p1 = if b.required {
        p0.push("        required: true"@)
    } else {
        p0
    };
    if b.content_type.len() > 0 {
        p1.push("        content:"@).push("          "@ + b.content_type + ": {}"@)
    } else {
        p1
    }
}

/// The text of a request body.
pub open spec fn body_text(b: RequestBodyModel) -> Seq<char> {
    join_with(body_parts(b), "\n"@)
}

/// A request body that is neither required nor has a content type.
pub open spec fn body_is_empty(b: RequestBodyModel) -> bool {
    !b.required && b.content_type.len() == 0
}

/// The texts of headers.
pub open spec fn headers_text(hs: Seq<HeaderModel>) -> Seq<Seq<char>> {
    hs.map_values(|h: HeaderModel| header_text(h))
}

/// The texts of responses.
pub open spec fn responses_text(rs: Seq<ResponseModel>) -> Seq<Seq<char>> {
    rs.map_values(|r: ResponseModel| response_text(r))
}

/// The parts of a method: its name line, then its summary, description,
/// headers, request body and responses, each only when it is not empty.
pub open spec fn method_parts(m: MethodModel) -> Seq<Seq<char>> {
    let p0 = seq!["    "@ + m.method + ":"@];
    let p1 = if m.summary.len() > 0 {
        p0.push("      summary: "@ + m.summary)
    } else {
        p0
    };
    let p2 = if m.description.len() > 0 {
        p1.push("      description: "@ + m.description)
    } else {
        p1
    };
    let p3 = if m.header.len() > 0 {
        p2.push("      headers:"@).push(join_with(headers_text(m.header), "\n"@))
    } else {
        p2
    };
    let p4 = if !body_is_empty(m.body) {
        p3.push(body_text(m.body))
    } else {
        p3
    };
    if m.responses.len() > 0 {
        p4.push("      responses:"@).push(join_with(responses_text(m.responses), "\n"@))
    } else {
        p4
    }
}

/// The text of a method.
pub open spec fn method_text(m: MethodModel) -> Seq<char> {
    join_with(method_parts(m), "\n"@)
}

/// The texts of methods.
pub open spec fn methods_text(ms: Seq<MethodModel>) -> Seq<Seq<char>> {
    ms.map_values(|m: MethodModel| method_text(m))
}

/// The text of a path: its name line, then its methods.
pub open spec fn path_text(p: PathModel) -> Seq<char> {
    "  /"@ + p.path + ":\n"@ + join_with(methods_text(p.methods), "\n"@)
}

/// The texts of servers.
pub open spec fn servers_text(ss: Seq<ServerModel>) -> Seq<Seq<char>> {
    ss.map_values(|s: ServerModel| server_text(s))
}

/// The texts of paths.
pub open spec fn paths_text(ps: Seq<PathModel>) -> Seq<Seq<char>> {
    ps.map_values(|p: PathModel| path_text(p))
}

/// The text of a document.
pub open spec fn openapi_text(a: OpenApiModel) -> Seq<char> {
    "openapi: "@ + a.openapi + "\n"@ + info_text(a.info) + "\nservers:\n"@ + join_with(
        servers_text(a.servers),
        "\n"@,
    ) + "\npaths:\n"@ + join_with(paths_text(a.paths), "\n"@)
}

impl OpenApiInfo {
    fn to_string(&self) -> (r: String)
        ensures
            r@ == info_text(self@),
    {
        let mut r = String::new();
        r.append("info:\n  title: ");
        r.append(self.title.as_str());
        r.append("\n  description: ");
        r.append(self.description.as_str());
        r.append("\n  version: ");
        r.append(self.version.as_str());
        r
    }
}

impl OpenApiServer {
    fn to_string(&self) -> (r: String)
        ensures
            r@ == server_text(self@),
    {
        let mut r = String::new();
        r.append("  - url: ");
        r.append(self.url.as_str());
        r.append("\n    description: ");
        r.append(self.description.as_str());
        r
    }
}

impl OpenApiResponse {
    fn to_string(&self) -> (r: String)
        ensures
            r@ == response_text(self@),
    {
        let mut parts: Vec<String> = Vec::new();
        parts.push(concat3("        \"", self.code.as_str(), "\":"));
        if !self.description.as_str().is_empty() {
            parts.push(concat2("          description: ", self.description.as_str()));
        }
        if !self.content_type.as_str().is_empty() {
            parts.push(string_of("          content:"));
            parts.push(concat3("            ", self.content_type.as_str(), ": {}"));
        }
        proof {
            assert(strings_view(parts@) =~= response_parts(self@));
        }
        join_strings(&parts, "\n")
    }
}

impl OpenApiHeader {
    fn to_string(&self) -> (r: String)
        ensures
            r@ == header_text(self@),
    {
        let mut parts: Vec<String> = Vec::new();
        parts.push(concat3("        ", self.name.as_str(), ":"));
        if !self.description.as_str().is_empty() {
            parts.push(concat2("          description: ", self.description.as_str()));
        }
        if !self.header_type.as_str().is_empty() {
            parts.push(concat2("          type: ", self.header_type.as_str()));
        }
        if !self.example.as_str().is_empty() {
            parts.push(concat2("          example: ", self.example.as_str()));
        }
        proof {
            assert(strings_view(parts@) =~= header_parts(self@));
        }
        join_strings(&parts, "\n")
    }
}

impl OpenApiRequestBody {
    fn to_string(&self) -> (r: String)
        ensures
            r@ == body_text(self@),
    {
        let mut parts: Vec<String> = Vec::new();
        parts.push(string_of("      requestBody:"));
        if self.required {
            parts.push(string_of("        required: true"));
        }
        if !self.content_type.as_str().is_empty() {
            parts.push(string_of("        content:"));
            parts.push(concat3("          ", self.content_type.as_str(), ": {}"));
        }
        proof {
            assert(strings_view(parts@) =~= body_parts(self@));
        }
        join_strings(&parts, "\n")
    }
}

/// The texts of the headers in `hs`.
fn header_texts(hs: &Vec<OpenApiHeader>) -> (r: Vec<String>)
    ensures
        strings_view(r@) == headers_text(headers_view(hs@)),
{
    let ghost hv = headers_view(hs@);
    let mut r: Vec<String> = Vec::new();
    let mut i: usize = 0;
    proof {
        assert(strings_view(r@) =~= headers_text(hv.take(0)));
    }
    while i < hs.len()
        invariant
            i <= hs@.len(),
            hv == headers_view(hs@),
            hv.len() == hs@.len(),
            strings_view(r@) == headers_text(hv.take(i as int)),
        decreases hs@.len() - i,
    {
        let t = hs[i].to_string();
        let ghost prev = r@;
        r.push(t);
        proof {
            assert(hv.take(i + 1) =~= hv.take(i as int).push(hv[i as int]));
            assert(strings_view(r@) =~= strings_view(prev).push(t@));
            assert(headers_text(hv.take(i + 1)) =~= headers_text(hv.take(i as int)).push(
                header_text(hv[i as int]),
            ));
        }
        i += 1;
    }
    proof {
        assert(hv.take(hs@.len() as int) =~= hv);
    }
    r
}

/// The texts of the responses in `rs`.
fn response_texts(rs: &Vec<OpenApiResponse>) -> (r: Vec<String>)
    ensures
        strings_view(r@) == responses_text(responses_view(rs@)),
{
    let ghost rv = responses_view(rs@);
    let mut r: Vec<String> = Vec::new();
    let mut i: usize = 0;
    proof {
        assert(strings_view(r@) =~= responses_text(rv.take(0)));
    }
    while i < rs.len()
        invariant
            i <= rs@.len(),
            rv == responses_view(rs@),
            rv.len() == rs@.len(),
            strings_view(r@) == responses_text(rv.take(i as int)),
        decreases rs@.len() - i,
    {
        let t = rs[i].to_string();
        let ghost prev = r@;
        r.push(t);
        proof {
            assert(rv.take(i + 1) =~= rv.take(i as int).push(rv[i as int]));
            assert(strings_view(r@) =~= strings_view(prev).push(t@));
            assert(responses_text(rv.take(i + 1)) =~= responses_text(rv.take(i as int)).push(
                response_text(rv[i as int]),
            ));
        }
        i += 1;
    }
    proof {
        assert(rv.take(rs@.len() as int) =~= rv);
    }
    r
}

impl OpenApiMethod {
    fn to_string(&self) -> (r: String)
        ensures
            r@ == method_text(self@),
    {
        let ghost m = self@;
        let mut parts: Vec<String> = Vec::new();
        parts.push(concat3("    ", self.method.as_str(), ":"));
        if !self.summary.as_str().is_empty() {
            parts.push(concat2("      summary: ", self.summary.as_str()));
        }
        if !self.description.as_str().is_empty() {
            parts.push(concat2("      description: ", self.description.as_str()));
        }
        if !self.header.is_empty() {
            parts.push(string_of("      headers:"));
            parts.push(join_strings(&header_texts(&self.header), "\n"));
        }
        if !self.body.is_empty() {
            parts.push(self.body.to_string());
        }
        if !self.responses.is_empty() {
            parts.push(string_of("      responses:"));
            parts.push(join_strings(&response_texts(&self.responses), "\n"));
        }
        proof {
            assert(strings_view(parts@) =~= method_parts(m));
        }
        join_strings(&parts, "\n")
    }
}

/// The texts of the methods in `ms`.
fn method_texts(ms: &Vec<OpenApiMethod>) -> (r: Vec<String>)
    ensures
        strings_view(r@) == methods_text(methods_view(ms@)),
{
    let ghost mv = methods_view(ms@);
    let mut r: Vec<String> = Vec::new();
    let mut i: usize = 0;
    proof {
        assert(strings_view(r@) =~= methods_text(mv.take(0)));
    }
    while i < ms.len()
        invariant
            i <= ms@.len(),
            mv == methods_view(ms@),
            mv.len() == ms@.len(),
            strings_view(r@) == methods_text(mv.take(i as int)),
        decreases ms@.len() - i,
    {
        let t = ms[i].to_string();
        let ghost prev = r@;
        r.push(t);
        proof {
            assert(mv.take(i + 1) =~= mv.take(i as int).push(mv[i as int]));
            assert(strings_view(r@) =~= strings_view(prev).push(t@));
            assert(methods_text(mv.take(i + 1)) =~= methods_text(mv.take(i as int)).push(
                method_text(mv[i as int]),
            ));
        }
        i += 1;
    }
    proof {
        assert(mv.take(ms@.len() as int) =~= mv);
    }
    r
}

impl OpenApiPath {
    fn to_string(&self) -> (r: String)
        ensures
            r@ == path_text(self@),
    {
        let mut r = String::new();
        r.append("  /");
        r.append(self.path.as_str());
        r.append(":\n");
        let body = join_strings(&method_texts(&self.methods), "\n");
        r.append(body.as_str());
        r
    }
}

/// The texts of the servers in `ss`.
fn server_texts(ss: &Vec<OpenApiServer>) -> (r: Vec<String>)
    ensures
        strings_view(r@) == servers_text(servers_view(ss@)),
{
    let ghost sv = servers_view(ss@);
    let mut r: Vec<String> = Vec::new();
    let mut i: usize = 0;
    proof {
        assert(strings_view(r@) =~= servers_text(sv.take(0)));
    }
    while i < ss.len()
        invariant
            i <= ss@.len(),
            sv == servers_view(ss@),
            sv.len() == ss@.len(),
            strings_view(r@) == servers_text(sv.take(i as int)),
        decreases ss@.len() - i,
    {
        let t = ss[i].to_string();
        let ghost prev = r@;
        r.push(t);
        proof {
            assert(sv.take(i + 1) =~= sv.take(i as int).push(sv[i as int]));
            assert(strings_view(r@) =~= strings_view(prev).push(t@));
            assert(servers_text(sv.take(i + 1)) =~= servers_text(sv.take(i as int)).push(
                server_text(sv[i as int]),
            ));
        }
        i += 1;
    }
    proof {
        assert(sv.take(ss@.len() as int) =~= sv);
    }
    r
}

/// The texts of the paths in `ps`.
fn path_texts(ps: &Vec<OpenApiPath>) -> (r: Vec<String>)
    ensures
        strings_view(r@) == paths_text(paths_view(ps@)),
{
    let ghost pv = paths_view(ps@);
    let mut r: Vec<String> = Vec::new();
    let mut i: usize = 0;
    proof {
        assert(strings_view(r@) =~= paths_text(pv.take(0)));
    }
    while i < ps.len()
        invariant
            i <= ps@.len(),
            pv == paths_view(ps@),
            pv.len() == ps@.len(),
            strings_view(r@) == paths_text(pv.take(i as int)),
        decreases ps@.len() - i,
    {
        let t = ps[i].to_string();
        let ghost prev = r@;
        r.push(t);
        proof {
            assert(pv.take(i + 1) =~= pv.take(i as int).push(pv[i as int]));
            assert(strings_view(r@) =~= strings_view(prev).push(t@));
            assert(paths_text(pv.take(i + 1)) =~= paths_text(pv.take(i as int)).push(
                path_text(pv[i as int]),
            ));
        }
        i += 1;
    }
    proof {
        assert(pv.take(ps@.len() as int) =~= pv);
    }
    r
}

impl OpenApi {
    /// The document as YAML text.
    pub fn to_string(&self) -> (r: String)
        ensures
            r@ == openapi_text(self@),
    {
        let mut r = String::new();
        r.append("openapi: ");
        r.append(self.openapi.as_str());
        r.append("\n");
        r.append(self.info.to_string().as_str());
        r.append("\nservers:\n");
        r.append(join_strings(&server_texts(&self.servers), "\n").as_str());
        r.append("\npaths:\n");
        r.append(join_strings(&path_texts(&self.paths), "\n").as_str());
        r
    }
}

// ---------------------------------------------------------------------------
// Reading the parts of a document
// ---------------------------------------------------------------------------
impl OpenApiInfo {
    /// The title.
    pub fn title(&self) -> (r: &String)
        ensures
            r@ == self@.title,
    {
        &self.title
    }

    /// The description.
    pub fn description(&self) -> (r: &String)
        ensures
            r@ == self@.description,
    {
        &self.description
    }

    /// The version.
    pub fn version(&self) -> (r: &String)
        ensures
            r@ == self@.version,
    {
        &self.version
    }
}

impl OpenApiServer {
    /// The server's URL.
    pub fn url(&self) -> (r: &String)
        ensures
            r@ == self@.url,
    {
        &self.url
    }

    /// The server's description.
    pub fn description(&self) -> (r: &String)
        ensures
            r@ == self@.description,
    {
        &self.description
    }
}

impl OpenApiPath {
    /// The path, without its leading `/`.
    pub fn path(&self) -> (r: &String)
        ensures
            r@ == self@.path,
    {
        &self.path
    }

    /// The methods of the path.
    pub fn methods(&self) -> (r: &Vec<OpenApiMethod>)
        ensures
            methods_view(r@) == self@.methods,
    {
        &self.methods
    }
}

impl OpenApiMethod {
    /// The HTTP method, such as `get`.
    pub fn method(&self) -> (r: &String)
        ensures
            r@ == self@.method,
    {
        &self.method
    }

    /// The summary.
    pub fn summary(&self) -> (r: &String)
        ensures
            r@ == self@.summary,
    {
        &self.summary
    }

    /// The description.
    pub fn description(&self) -> (r: &String)
        ensures
            r@ == self@.description,
    {
        &self.description
    }

    /// The request body.
    pub fn body(&self) -> (r: &OpenApiRequestBody)
        ensures
            r@ == self@.body,
    {
        &self.body
    }

    /// The headers.
    pub fn headers(&self) -> (r: &Vec<OpenApiHeader>)
        ensures
            headers_view(r@) == self@.header,
    {
        &self.header
    }

    /// The responses.
    pub fn responses(&self) -> (r: &Vec<OpenApiResponse>)
        ensures
            responses_view(r@) == self@.responses,
    {
        &self.responses
    }
}

impl OpenApiRequestBody {
    /// Whether the body is required.
    pub fn required(&self) -> (r: bool)
        ensures
            r == self@.required,
    {
        self.required
    }

    /// The content type of the body.
    pub fn content_type(&self) -> (r: &String)
        ensures
            r@ == self@.content_type,
    {
        &self.content_type
    }
}

impl OpenApiHeader {
    /// The header's name.
    pub fn name(&self) -> (r: &String)
        ensures
            r@ == self@.name,
    {
        &self.name
    }

    /// The header's description.
    pub fn description(&self) -> (r: &String)
        ensures
            r@ == self@.description,
    {
        &self.description
    }

    /// The header's type.
    pub fn header_type(&self) -> (r: &String)
        ensures
            r@ == self@.header_type,
    {
        &self.header_type
    }

    /// The header's example value.
    pub fn example(&self) -> (r: &String)
        ensures
            r@ == self@.example,
    {
        &self.example
    }
}

impl OpenApiResponse {
    /// The status code, such as `200`.
    pub fn code(&self) -> (r: &String)
        ensures
            r@ == self@.code,
    {
        &self.code
    }

    /// The response's description.
    pub fn description(&self) -> (r: &String)
        ensures
            r@ == self@.description,
    {
        &self.description
    }

    /// The content type of the response.
    pub fn content_type(&self) -> (r: &String)
        ensures
            r@ == self@.content_type,
    {
        &self.content_type
    }
}

} // verus!
