//! A simpler reader of OpenAPI YAML text: documents with an `info` section,
//! servers and paths, where each method holds a summary, a description and
//! its responses (status code, description and content).
//!
//! The `info` section and the server entries are read as in [`crate::yml`].
use vstd::prelude::*;
use crate::text::{
    before_char, char_vecs_view, chars_from, chars_of, chars_upto, drop_first_char, find_char,
    has_prefix, join_lines_from, join_strings, join_with, lemma_char_pos, lines_of, push_chars,
    push_line, rm_starting_spaces, rm_yml_key, skip_first_line, split_lines, starts_with,
    string_from_chars, strings_view, trim_start_spaces, with_newline, yml_value,
};
use crate::status_pattern::{
    quoted_status, quoted_status_code, regex_compiles, StatusPatterns, STATUS_CODE, STATUS_LINE,
};
use crate::yml::{
    empty_info, empty_server, flushed, http_method_names, http_methods, info_fold, info_from_yml,
    info_text, server_fold, server_from_yml, server_text, top_fold, InfoModel, ServerModel, TopScan,
};

verus! {

// ---------------------------------------------------------------------------
// Types
// ---------------------------------------------------------------------------
/// An OpenAPI document.
pub struct OpenApi {
    pub openapi: String,
    pub info: OpenApiInfo,
    pub servers: Vec<OpenApiServer>,
    pub paths: Vec<OpenApiPath>,
}

/// The `info` section.
pub struct OpenApiInfo {
    title: String,
    description: String,
    version: String,
}

/// One entry of the `servers` list.
pub struct OpenApiServer {
    url: String,
    description: String,
}

/// One path with its methods.
pub struct OpenApiPath {
    path: String,
    methods: Vec<OpenApiMethod>,
}

/// One method (operation) of a path.
pub struct OpenApiMethod {
    method: String,
    summary: String,
    description: String,
    responses: Vec<OpenApiResponse>,
}

/// One response of a method.
pub struct OpenApiResponse {
    code: String,
    description: String,
    content: String,
}

// ---------------------------------------------------------------------------
// Models
// ---------------------------------------------------------------------------
/// What an [`OpenApi`] holds.
pub struct OpenApiModel {
    pub openapi: Seq<char>,
    pub info: InfoModel,
    pub servers: Seq<ServerModel>,
    pub paths: Seq<PathModel>,
}

/// What an [`OpenApiPath`] holds.
pub struct PathModel {
    pub path: Seq<char>,
    pub methods: Seq<MethodModel>,
}

/// What an [`OpenApiMethod`] holds.
pub struct MethodModel {
    pub method: Seq<char>,
    pub summary: Seq<char>,
    pub description: Seq<char>,
    pub responses: Seq<ResponseModel>,
}

/// What an [`OpenApiResponse`] holds.
pub struct ResponseModel {
    pub code: Seq<char>,
    pub description: Seq<char>,
    pub content: Seq<char>,
}

impl View for OpenApiInfo {
    type V = InfoModel;

    closed spec fn view(&self) -> InfoModel {
        InfoModel { title: self.title@, description: self.description@, version: self.version@ }
    }
}

impl View for OpenApiServer {
    type V = ServerModel;

    closed spec fn view(&self) -> ServerModel {
        ServerModel { url: self.url@, description: self.description@ }
    }
}

impl View for OpenApiResponse {
    type V = ResponseModel;

    closed spec fn view(&self) -> ResponseModel {
        ResponseModel { code: self.code@, description: self.description@, content: self.content@ }
    }
}

/// The models of a sequence of responses.
pub open spec fn responses_view(v: Seq<OpenApiResponse>) -> Seq<ResponseModel> {
    v.map_values(|x: OpenApiResponse| x@)
}

/// The models of a sequence of servers.
pub open spec fn servers_view(v: Seq<OpenApiServer>) -> Seq<ServerModel> {
    v.map_values(|x: OpenApiServer| x@)
}

/// The models of a sequence of methods.
pub open spec fn methods_view(v: Seq<OpenApiMethod>) -> Seq<MethodModel> {
    v.map_values(|x: OpenApiMethod| x@)
}

/// The models of a sequence of paths.
pub open spec fn paths_view(v: Seq<OpenApiPath>) -> Seq<PathModel> {
    v.map_values(|x: OpenApiPath| x@)
}

impl View for OpenApiMethod {
    type V = MethodModel;

    closed spec fn view(&self) -> MethodModel {
        MethodModel {
            method: self.method@,
            summary: self.summary@,
            description: self.description@,
            responses: responses_view(self.responses@),
        }
    }
}

impl View for OpenApiPath {
    type V = PathModel;

    closed spec fn view(&self) -> PathModel {
        PathModel { path: self.path@, methods: methods_view(self.methods@) }
    }
}

impl View for OpenApi {
    type V = OpenApiModel;

    open spec fn view(&self) -> OpenApiModel {
        OpenApiModel {
            openapi: self.openapi@,
            info: self.info@,
            servers: servers_view(self.servers@),
            paths: paths_view(self.paths@),
        }
    }
}

// ---------------------------------------------------------------------------
// Reading: specifications
// ---------------------------------------------------------------------------
/// The first method `m` of `ms` such that `line` starts with `m`.
pub open spec fn first_method_prefix(line: Seq<char>, ms: Seq<Seq<char>>) -> Option<Seq<char>>
    decreases ms.len(),
{
    if ms.len() == 0 {
        None
    } else if has_prefix(line, ms[0]) {
        Some(ms[0])
    } else {
        first_method_prefix(line, ms.drop_first())
    }
}

/// Whether `line` starts with the name of an HTTP method.
pub open spec fn is_method_line(line: Seq<char>) -> bool {
    first_method_prefix(line, http_methods()) is Some
}

/// Reading state of a response block: the response read so far.
pub open spec fn response_step(r: ResponseModel, l: Seq<char>) -> ResponseModel {
    if quoted_status(l) {
        ResponseModel { code: quoted_status_code(l), ..r }
    } else if has_prefix(l, "description:"@) {
        ResponseModel { description: yml_value(l), ..r }
    } else if has_prefix(l, "content:"@) {
        ResponseModel { content: yml_value(l), ..r }
    } else {
        r
    }
}

/// An empty response.
pub open spec fn empty_response() -> ResponseModel {
    ResponseModel { code: seq![], description: seq![], content: seq![] }
}

/// The response read from the lines `ls`.
pub open spec fn response_fold(ls: Seq<Seq<char>>) -> ResponseModel
    decreases ls.len(),
{
    if ls.len() == 0 {
        empty_response()
    } else {
        response_step(response_fold(ls.drop_last()), ls.last())
    }
}

/// The response read from the text `yml`: its code from the last line that
/// starts with a quoted three-digit code, and the values of its last
/// `description:` and `content:` lines.
pub open spec fn response_from_yml(yml: Seq<char>) -> ResponseModel {
    response_fold(lines_of(yml))
}

/// Reading state of a method block.
pub struct MethodScan {
    pub method: Seq<char>,
    pub summary: Seq<char>,
    pub description: Seq<char>,
    pub in_responses: bool,
    pub res_list: Seq<Seq<char>>,
    pub res_str: Seq<char>,
}

/// How one line of a method block changes the reading state.
pub open spec fn method_step(st: MethodScan, l: Seq<char>) -> MethodScan {
    let a = if st.method.len() == 0 {
        match first_method_prefix(l, http_methods()) {
            Some(m) => MethodScan { method: m, ..st },
            None => st,
        }
    } else {
        st
    };
    let b = if has_prefix(l, "responses:"@) {
        MethodScan { in_responses: true, ..a }
    } else {
        a
    };
    let c = if !b.in_responses {
        let c1 = if has_prefix(l, "summary:"@) {
            MethodScan { summary: yml_value(l), ..b }
        } else {
            b
        };
        if has_prefix(l, "description"@) {
            MethodScan { description: yml_value(l), ..c1 }
        } else {
            c1
        }
    } else {
        b
    };
    let d = if quoted_status(l) && c.res_str.len() > 0 {
        MethodScan { res_list: c.res_list.push(c.res_str), res_str: seq![], ..c }
    } else {
        c
    };
    MethodScan { res_str: d.res_str + with_newline(l), ..d }
}

/// The reading state after the lines `ls` of a method block.
pub open spec fn method_fold(ls: Seq<Seq<char>>) -> MethodScan
    decreases ls.len(),
{
    if ls.len() == 0 {
        MethodScan {
            method: seq![],
            summary: seq![],
            description: seq![],
            in_responses: false,
            res_list: seq![],
            res_str: seq![],
        }
    } else {
        method_step(method_fold(ls.drop_last()), ls.last())
    }
}

/// The responses read from response blocks.
pub open spec fn responses_from_yml(blocks: Seq<Seq<char>>) -> Seq<ResponseModel> {
    blocks.map_values(|b: Seq<char>| response_from_yml(b))
}

/// The method read from the text `yml` of a method block; the first block
/// cut at status lines is the method's preamble, not a response.
pub open spec fn method_from_yml(yml: Seq<char>) -> MethodModel {
    let st = method_fold(lines_of(yml));
    MethodModel {
        method: st.method,
        summary: st.summary,
        description: st.description,
        responses: responses_from_yml(skip_first_line(flushed(st.res_list, st.res_str))),
    }
}

/// Cutting the lines of a path block into method blocks.
pub open spec fn method_chunk_scan(ls: Seq<Seq<char>>) -> (Seq<Seq<char>>, Seq<char>)
    decreases ls.len(),
{
    if ls.len() == 0 {
        (seq![], seq![])
    } else {
        let (items, cur) = method_chunk_scan(ls.drop_last());
        let l = ls.last();
        if is_method_line(l) && cur.len() > 0 {
            (items.push(cur), with_newline(l))
        } else {
            (items, cur + with_newline(l))
        }
    }
}

/// The method blocks of `text`: a new block starts at each line that starts
/// with the name of an HTTP method.
pub open spec fn method_chunks(text: Seq<char>) -> Seq<Seq<char>> {
    let (items, cur) = method_chunk_scan(lines_of(text));
    flushed(items, cur)
}

/// The methods read from method blocks.
pub open spec fn methods_from_yml(blocks: Seq<Seq<char>>) -> Seq<MethodModel> {
    blocks.map_values(|b: Seq<char>| method_from_yml(b))
}

/// The path read from the text of a path block.
pub open spec fn path_from_yml(yml: Seq<char>) -> PathModel {
    PathModel {
        path: before_char(yml, ':'),
        methods: methods_from_yml(
            method_chunks(join_with(skip_first_line(lines_of(yml)), seq!['\n'])),
        ),
    }
}

/// The lines of `yml` with their leading spaces dropped.
pub open spec fn trimmed_lines(yml: Seq<char>) -> Seq<Seq<char>> {
    lines_of(yml).map_values(|l: Seq<char>| trim_start_spaces(l))
}

/// Cutting a list into entries: entries so far and the entry being read.
pub open spec fn list_scan(ls: Seq<Seq<char>>, sep: Seq<char>) -> (Seq<Seq<char>>, Seq<char>)
    decreases ls.len(),
{
    if ls.len() == 0 {
        (seq![], seq![])
    } else {
        let (items, cur) = list_scan(ls.drop_last(), sep);
        let l = ls.last();
        if has_prefix(l, sep) {
            (flushed(items, cur), with_newline(drop_first_char(l)))
        } else {
            (items, cur + with_newline(trim_start_spaces(l)))
        }
    }
}

/// The entries of a YAML list: the text is first rewritten with the leading
/// spaces of every line dropped; it is then cut before each line that starts
/// with `sep` (whose first character is dropped), each line followed by a
/// line break; the first entry is left out.
pub open spec fn yml_list_by_separator(yml: Seq<char>, sep: Seq<char>) -> Seq<Seq<char>> {
    let text = join_with(trimmed_lines(yml), seq!['\n']);
    let (items, cur) = list_scan(lines_of(text), sep);
    skip_first_line(flushed(items, cur))
}

/// The servers read from server entries.
pub open spec fn servers_from_yml(entries: Seq<Seq<char>>) -> Seq<ServerModel> {
    entries.map_values(|e: Seq<char>| server_from_yml(e))
}

/// The paths read from path blocks.
pub open spec fn paths_from_yml(blocks: Seq<Seq<char>>) -> Seq<PathModel> {
    blocks.map_values(|b: Seq<char>| path_from_yml(b))
}

/// The document read from the text `yml`.
pub open spec fn openapi_from_yml(yml: Seq<char>) -> OpenApiModel {
    let st = top_fold(lines_of(yml));
    OpenApiModel {
        openapi: st.openapi,
        info: info_from_yml(st.info),
        servers: servers_from_yml(yml_list_by_separator(st.servers, "-"@)),
        paths: paths_from_yml(yml_list_by_separator(st.paths, "/"@)),
    }
}

// ---------------------------------------------------------------------------
// Reading: implementation
// ---------------------------------------------------------------------------
/// The first HTTP method `m` such that `line` starts with `m`.
fn method_prefix_of(line: &[char]) -> (r: Option<&'static str>)
    ensures
        match r {
            Some(m) => first_method_prefix(line@, http_methods()) == Some(m@),
            None => first_method_prefix(line@, http_methods()) is None,
        },
{
    let ms = http_method_names();
    let ghost mv = ms@.map_values(|s: &str| s@);
    let mut i: usize = 0;
    assert(mv.skip(0) =~= mv);
    while i < ms.len()
        invariant
            i <= ms@.len(),
            mv == ms@.map_values(|s: &str| s@),
            mv == http_methods(),
            first_method_prefix(line@, mv) == first_method_prefix(line@, mv.skip(i as int)),
        decreases ms@.len() - i,
    {
        proof {
            assert(mv.skip(i as int)[0] == ms@[i as int]@);
            assert(mv.skip(i as int).drop_first() =~= mv.skip(i + 1));
        }
        if starts_with(line, ms[i]) {
            return Some(ms[i]);
        }
        i += 1;
    }
    None
}

impl OpenApiInfo {
    fn new(title: String, description: String, version: String) -> (r: OpenApiInfo)
        ensures
            r@ == (InfoModel { title: title@, description: description@, version: version@ }),
    {
        OpenApiInfo { title, description, version }
    }

    fn default() -> (r: OpenApiInfo)
        ensures
            r@ == empty_info(),
    {
        OpenApiInfo { title: String::new(), description: String::new(), version: String::new() }
    }

    fn from_yml_string(yml: String) -> (r: OpenApiInfo)
        ensures
            r@ == info_from_yml(yml@),
    {
        let mut info = OpenApiInfo::default();
        let ls = split_lines(&chars_of(yml.as_str()));
        let ghost lv = char_vecs_view(ls@);
        let mut i: usize = 0;
        while i < ls.len()
            invariant
                i <= ls@.len(),
                lv == char_vecs_view(ls@),
                lv.len() == ls@.len(),
                info@ == info_fold(lv.take(i as int)),
            decreases ls@.len() - i,
        {
            proof {
                assert(lv.take(i + 1).drop_last() =~= lv.take(i as int));
            }
            let line = rm_starting_spaces(&ls[i]);
            if starts_with(&line, "title:") {
                info.title = string_from_chars(&rm_yml_key(&line));
            } else if starts_with(&line, "description:") {
                info.description = string_from_chars(&rm_yml_key(&line));
            } else if starts_with(&line, "version:") {
                info.version = string_from_chars(&rm_yml_key(&line));
            }
            i += 1;
        }
        proof {
            assert(lv.take(ls@.len() as int) =~= lv);
        }
        info
    }

    fn to_string(&self) -> (r: String)
        ensures
            r@ == info_text(self@),
    {
        let mut r = String::new();
        r.append("info:\n  title: ");
        r.append(self.title.as_str());
        r.append("\n  description: ");
        r.append(self.description.as_str());
        r.append("\n  version: ");
        r.append(self.version.as_str());
        r
    }
}

impl OpenApiServer {
    fn new(url: String, description: String) -> (r: OpenApiServer)
        ensures
            r@ == (ServerModel { url: url@, description: description@ }),
    {
        OpenApiServer { url, description }
    }

    fn default() -> (r: OpenApiServer)
        ensures
            r@ == empty_server(),
    {
        OpenApiServer { url: String::new(), description: String::new() }
    }

    fn from_yml_string(yml: String) -> (r: OpenApiServer)
        ensures
            r@ == server_from_yml(yml@),
    {
        let mut server = OpenApiServer::default();
        let ls = split_lines(&chars_of(yml.as_str()));
        let ghost lv = char_vecs_view(ls@);
        let mut i: usize = 0;
        while i < ls.len()
            invariant
                i <= ls@.len(),
                lv == char_vecs_view(ls@),
                lv.len() == ls@.len(),
                server@ == server_fold(lv.take(i as int)),
            decreases ls@.len() - i,
        {
            proof {
                assert(lv.take(i + 1).drop_last() =~= lv.take(i as int));
            }
            let l = rm_starting_spaces(&ls[i]);
            if starts_with(&l, "url:") {
                server.url = string_from_chars(&rm_yml_key(&l));
            } else if starts_with(&l, "description") {
                server.description = string_from_chars(&rm_yml_key(&l));
            }
            i += 1;
        }
        proof {
            assert(lv.take(ls@.len() as int) =~= lv);
        }
        server
    }

    fn to_string(&self) -> (r: String)
        ensures
            r@ == server_text(self@),
    {
        let mut r = String::new();
        r.append("  - url: ");
        r.append(self.url.as_str());
        r.append("\n    description: ");
        r.append(self.description.as_str());
        r
    }
}

impl OpenApiResponse {
    fn new(code: String, description: String, content: String) -> (r: OpenApiResponse)
        ensures
            r@ == (ResponseModel { code: code@, description: description@, content: content@ }),
    {
        OpenApiResponse { code, description, content }
    }

    fn default() -> (r: OpenApiResponse)
        ensures
            r@ == empty_response(),
    {
        OpenApiResponse { code: String::new(), description: String::new(), content: String::new() }
    }

    fn from_yml_string(yml: String, patterns: &StatusPatterns) -> (r: OpenApiResponse)
        requires
            patterns.wf(),
        ensures
            r@ == response_from_yml(yml@),
    {
        let mut response = OpenApiResponse::default();
        let ls = split_lines(&chars_of(yml.as_str()));
        let ghost lv = char_vecs_view(ls@);
        let mut i: usize = 0;
        while i < ls.len()
            invariant
                i <= ls@.len(),
                lv == char_vecs_view(ls@),
                lv.len() == ls@.len(),
                patterns.wf(),
                response@ == response_fold(lv.take(i as int)),
            decreases ls@.len() - i,
        {
            proof {
                assert(lv.take(i + 1).drop_last() =~= lv.take(i as int));
            }
            let l = &ls[i];
            if let Some(code) = patterns.status_code(l) {
                response.code = string_from_chars(&code);
            } else if starts_with(l, "description:") {
                response.description = string_from_chars(&rm_yml_key(l));
            } else if starts_with(l, "content:") {
                response.content = string_from_chars(&rm_yml_key(l));
            }
            i += 1;
        }
        proof {
            assert(lv.take(ls@.len() as int) =~= lv);
        }
        response
    }
}

/// The responses read from the blocks of `blocks` after the first one.
fn responses_after_first(blocks: &Vec<Vec<char>>, patterns: &StatusPatterns) -> (r: Vec<
    OpenApiResponse,
>)
    requires
        patterns.wf(),
    ensures
        responses_view(r@) == responses_from_yml(skip_first_line(char_vecs_view(blocks@))),
{
    let ghost bv = char_vecs_view(blocks@);
    let mut r: Vec<OpenApiResponse> = Vec::new();
    if blocks.len() == 0 {
        proof {
            assert(responses_view(r@) =~= responses_from_yml(skip_first_line(bv)));
        }
        return r;
    }
    let mut i: usize = 1;
    proof {
        assert(responses_view(r@) =~= responses_from_yml(bv.subrange(1, 1)));
    }
    while i < blocks.len()
        invariant
            1 <= i <= blocks@.len(),
            bv == char_vecs_view(blocks@),
            bv.len() == blocks@.len(),
            patterns.wf(),
            responses_view(r@) == responses_from_yml(bv.subrange(1, i as int)),
        decreases blocks@.len() - i,
    {
        let x = OpenApiResponse::from_yml_string(string_from_chars(&blocks[i]), patterns);
        let ghost prev = r@;
        r.push(x);
        proof {
            assert(bv.subrange(1, i + 1) =~= bv.subrange(1, i as int).push(bv[i as int]));
            assert(r@ =~= prev.push(x));
            assert(responses_view(r@) =~= responses_view(prev).push(x@));
            assert(responses_from_yml(bv.subrange(1, i + 1)) =~= responses_from_yml(
                bv.subrange(1, i as int),
            ).push(response_from_yml(bv[i as int])));
        }
        i += 1;
    }
    proof {
        assert(bv.subrange(1, blocks@.len() as int) =~= skip_first_line(bv));
    }
    r
}

impl OpenApiMethod {
    fn new(method: String, summary: String, description: String, responses: Vec<OpenApiResponse>) -> (r:
        OpenApiMethod)
        ensures
            r@ == (MethodModel {
                method: method@,
                summary: summary@,
                description: description@,
                responses: responses_view(responses@),
            }),
    {
        OpenApiMethod { method, summary, description, responses }
    }

    fn default() -> (r: OpenApiMethod)
        ensures
            r@ == (MethodModel {
                method: seq![],
                summary: seq![],
                description: seq![],
                responses: seq![],
            }),
    {
        let r = OpenApiMethod {
            method: String::new(),
            summary: String::new(),
            description: String::new(),
            responses: Vec::new(),
        };
        proof {
            assert(responses_view(r.responses@) =~= Seq::<ResponseModel>::empty());
        }
        r
    }

    fn from_yml_string(yml: String, patterns: &StatusPatterns) -> (r: OpenApiMethod)
        requires
            patterns.wf(),
        ensures
            r@ == method_from_yml(yml@),
    {
        let mut method: Vec<char> = Vec::new();
        let mut summary: Vec<char> = Vec::new();
        let mut description: Vec<char> = Vec::new();
        let mut res_list: Vec<Vec<char>> = Vec::new();
        let mut res_str: Vec<char> = Vec::new();
        let mut in_responses = false;

        let ls = split_lines(&chars_of(yml.as_str()));
        let ghost lv = char_vecs_view(ls@);
        let mut i: usize = 0;
        proof {
            assert(char_vecs_view(res_list@) =~= Seq::<Seq<char>>::empty());
        }
        while i < ls.len()
            invariant
                i <= ls@.len(),
                lv == char_vecs_view(ls@),
                lv.len() == ls@.len(),
                patterns.wf(),
                method_fold(lv.take(i as int)) == (MethodScan {
                    method: method@,
                    summary: summary@,
                    description: description@,
                    in_responses,
                    res_list: char_vecs_view(res_list@),
                    res_str: res_str@,
                }),
            decreases ls@.len() - i,
        {
            proof {
                assert(lv.take(i + 1).drop_last() =~= lv.take(i as int));
            }
            let l = &ls[i];
            if method.len() == 0 {
                match method_prefix_of(l) {
                    Some(m) => {
                        method = chars_of(m);
                    },
                    None => {},
                }
            }
            if starts_with(l, "responses:") {
                in_responses = true;
            }
            if !in_responses {
                if starts_with(l, "summary:") {
                    summary = rm_yml_key(l);
                }
                if starts_with(l, "description") {
                    description = rm_yml_key(l);
                }
            }
            let is_new_res = patterns.is_status_line(l);
            if is_new_res && res_str.len() > 0 {
                let mut block: Vec<char> = Vec::new();
                std::mem::swap(&mut block, &mut res_str);
                let ghost prev = res_list@;
                res_list.push(block);
                proof {
                    assert(char_vecs_view(res_list@) =~= char_vecs_view(prev).push(block@));
                }
            }
            push_line(&mut res_str, l);
            i += 1;
        }
        proof {
            assert(lv.take(ls@.len() as int) =~= lv);
        }
        if res_str.len() > 0 {
            let ghost prev = res_list@;
            res_list.push(res_str);
            proof {
                assert(char_vecs_view(res_list@) =~= char_vecs_view(prev).push(res_str@));
            }
        }
        let responses = responses_after_first(&res_list, patterns);
        OpenApiMethod::new(
            string_from_chars(&method),
            string_from_chars(&summary),
            string_from_chars(&description),
            responses,
        )
    }
}

/// The methods read from the blocks in `blocks`.
fn methods_from_blocks(blocks: &Vec<Vec<char>>, patterns: &StatusPatterns) -> (r: Vec<
    OpenApiMethod,
>)
    requires
        patterns.wf(),
    ensures
        methods_view(r@) == methods_from_yml(char_vecs_view(blocks@)),
{
    let ghost bv = char_vecs_view(blocks@);
    let mut r: Vec<OpenApiMethod> = Vec::new();
    let mut i: usize = 0;
    proof {
        assert(methods_view(r@) =~= methods_from_yml(bv.take(0)));
    }
    while i < blocks.len()
        invariant
            i <= blocks@.len(),
            bv == char_vecs_view(blocks@),
            bv.len() == blocks@.len(),
            patterns.wf(),
            methods_view(r@) == methods_from_yml(bv.take(i as int)),
        decreases blocks@.len() - i,
    {
        let m = OpenApiMethod::from_yml_string(string_from_chars(&blocks[i]), patterns);
        let ghost prev = r@;
        r.push(m);
        proof {
            assert(bv.take(i + 1) =~= bv.take(i as int).push(bv[i as int]));
            assert(r@ =~= prev.push(m));
            assert(methods_view(r@) =~= methods_view(prev).push(m@));
            assert(methods_from_yml(bv.take(i + 1)) =~= methods_from_yml(bv.take(i as int)).push(
                method_from_yml(bv[i as int]),
            ));
        }
        i += 1;
    }
    proof {
        assert(bv.take(blocks@.len() as int) =~= bv);
    }
    r
}

impl OpenApiPath {
    fn new(path: String, methods: Vec<OpenApiMethod>) -> (r: OpenApiPath)
        ensures
            r@ == (PathModel { path: path@, methods: methods_view(methods@) }),
    {
        OpenApiPath { path, methods }
    }

    fn default() -> (r: OpenApiPath)
        ensures
            r@ == (PathModel { path: seq![], methods: seq![] }),
    {
        let r = OpenApiPath { path: String::new(), methods: Vec::new() };
        proof {
            assert(methods_view(r.methods@) =~= Seq::<MethodModel>::empty());
        }
        r
    }

    fn from_yml_string(yml: String, patterns: &StatusPatterns) -> (r: OpenApiPath)
        requires
            patterns.wf(),
        ensures
            r@ == path_from_yml(yml@),
    {
        let chars = chars_of(yml.as_str());
        let k = find_char(&chars, ':');
        proof {
            lemma_char_pos(chars@, ':');
        }
        let path_str = chars_upto(&chars, k);

        let ls = split_lines(&chars);
        let methods_str = if ls.len() > 0 {
            join_lines_from(&ls, 1)
        } else {
            Vec::new()
        };
        proof {
            let lv = char_vecs_view(ls@);
            if lv.len() > 0 {
                assert(lv.skip(1) =~= skip_first_line(lv));
            } else {
                assert(methods_str@ =~= join_with(skip_first_line(lv), seq!['\n']));
            }
        }

        let mls = split_lines(&methods_str);
        let ghost mv = char_vecs_view(mls@);
        let mut method_list: Vec<Vec<char>> = Vec::new();
        let mut method_str: Vec<char> = Vec::new();
        let mut i: usize = 0;
        proof {
            assert(char_vecs_view(method_list@) =~= Seq::<Seq<char>>::empty());
        }
        while i < mls.len()
            invariant
                i <= mls@.len(),
                mv == char_vecs_view(mls@),
                mv.len() == mls@.len(),
                method_chunk_scan(mv.take(i as int)) == (
                    char_vecs_view(method_list@),
                    method_str@,
                ),
            decreases mls@.len() - i,
        {
            proof {
                assert(mv.take(i + 1).drop_last() =~= mv.take(i as int));
            }
            let l = &mls[i];
            let is_new_method = method_prefix_of(l).is_some();
            if is_new_method && method_str.len() > 0 {
                let mut block: Vec<char> = Vec::new();
                std::mem::swap(&mut block, &mut method_str);
                let ghost prev = method_list@;
                method_list.push(block);
                proof {
                    assert(char_vecs_view(method_list@) =~= char_vecs_view(prev).push(block@));
                }
            }
            push_line(&mut method_str, l);
            i += 1;
        }
        proof {
            assert(mv.take(mls@.len() as int) =~= mv);
        }
        if method_str.len() > 0 {
            let ghost prev = method_list@;
            method_list.push(method_str);
            proof {
                assert(char_vecs_view(method_list@) =~= char_vecs_view(prev).push(method_str@));
            }
        }
        let methods = methods_from_blocks(&method_list, patterns);
        OpenApiPath::new(string_from_chars(&path_str), methods)
    }
}

/// Cuts a YAML list into its entries (see [`yml_list_by_separator`]).
fn yml_list_2_vec_by_separator(yml: String, separator: &str) -> (r: Vec<String>)
    ensures
        strings_view(r@) == yml_list_by_separator(yml@, separator@),
{
    // every line without its leading spaces, joined again
    let ls0 = split_lines(&chars_of(yml.as_str()));
    let ghost lv0 = char_vecs_view(ls0@);
    let mut trimmed: Vec<Vec<char>> = Vec::new();
    let mut j: usize = 0;
    proof {
        assert(char_vecs_view(trimmed@) =~= lv0.take(0).map_values(
            |l: Seq<char>| trim_start_spaces(l),
        ));
    }
    while j < ls0.len()
        invariant
            j <= ls0@.len(),
            lv0 == char_vecs_view(ls0@),
            lv0.len() == ls0@.len(),
            char_vecs_view(trimmed@) == lv0.take(j as int).map_values(
                |l: Seq<char>| trim_start_spaces(l),
            ),
        decreases ls0@.len() - j,
    {
        let t = rm_starting_spaces(&ls0[j]);
        let ghost prev = trimmed@;
        trimmed.push(t);
        proof {
            assert(lv0.take(j + 1) =~= lv0.take(j as int).push(lv0[j as int]));
            assert(char_vecs_view(trimmed@) =~= char_vecs_view(prev).push(t@));
            assert(lv0.take(j + 1).map_values(|l: Seq<char>| trim_start_spaces(l))
                =~= lv0.take(j as int).map_values(|l: Seq<char>| trim_start_spaces(l)).push(
                trim_start_spaces(lv0[j as int]),
            ));
        }
        j += 1;
    }
    proof {
        assert(lv0.take(ls0@.len() as int) =~= lv0);
        assert(char_vecs_view(trimmed@).skip(0) =~= trimmed_lines(yml@));
    }
    let new_yml = join_lines_from(&trimmed, 0);

    let ls = split_lines(&new_yml);
    let ghost lv = char_vecs_view(ls@);
    let mut yml_list: Vec<String> = Vec::new();
    let mut to_append: Vec<char> = Vec::new();
    let mut i: usize = 0;
    proof {
        assert(strings_view(yml_list@) =~= Seq::<Seq<char>>::empty());
    }
    while i < ls.len()
        invariant
            i <= ls@.len(),
            lv == char_vecs_view(ls@),
            lv.len() == ls@.len(),
            list_scan(lv.take(i as int), separator@) == (strings_view(yml_list@), to_append@),
        decreases ls@.len() - i,
    {
        proof {
            assert(lv.take(i + 1).drop_last() =~= lv.take(i as int));
        }
        let line = &ls[i];
        if starts_with(line, separator) {
            if to_append.len() > 0 {
                let ghost prev = yml_list@;
                yml_list.push(string_from_chars(&to_append));
                proof {
                    assert(strings_view(yml_list@) =~= strings_view(prev).push(to_append@));
                }
                to_append = Vec::new();
            }
            let rest = if line.len() > 0 {
                chars_from(line, 1)
            } else {
                Vec::new()
            };
            proof {
                assert(rest@ =~= drop_first_char(line@));
            }
            push_line(&mut to_append, &rest);
            proof {
                assert(to_append@ =~= with_newline(drop_first_char(line@)));
            }
        } else {
            push_line(&mut to_append, &rm_starting_spaces(line));
        }
        i += 1;
    }
    proof {
        assert(lv.take(ls@.len() as int) =~= lv);
    }
    if to_append.len() > 0 {
        let ghost prev = yml_list@;
        yml_list.push(string_from_chars(&to_append));
        proof {
            assert(strings_view(yml_list@) =~= strings_view(prev).push(to_append@));
        }
    }
    if yml_list.len() > 0 {
        let ghost prev = yml_list@;
        yml_list.remove(0);
        proof {
            assert(strings_view(yml_list@) =~= strings_view(prev).drop_first());
        }
    }
    yml_list
}

/// Cuts a YAML list of `-` entries into its entries.
fn yml_list_2_vec(yml: String) -> (r: Vec<String>)
    ensures
        strings_view(r@) == yml_list_by_separator(yml@, "-"@),
{
    yml_list_2_vec_by_separator(yml, "-")
}

/// The servers read from the entries in `entries`.
fn servers_from_entries(entries: Vec<String>) -> (r: Vec<OpenApiServer>)
    ensures
        servers_view(r@) == servers_from_yml(strings_view(entries@)),
{
    let ghost ev = strings_view(entries@);
    let mut r: Vec<OpenApiServer> = Vec::new();
    let mut i: usize = 0;
    proof {
        assert(servers_view(r@) =~= servers_from_yml(ev.take(0)));
    }
    while i < entries.len()
        invariant
            i <= entries@.len(),
            ev == strings_view(entries@),
            ev.len() == entries@.len(),
            servers_view(r@) == servers_from_yml(ev.take(i as int)),
        decreases entries@.len() - i,
    {
        let x = OpenApiServer::from_yml_string(entries[i].clone());
        let ghost prev = r@;
        r.push(x);
        proof {
            assert(ev.take(i + 1) =~= ev.take(i as int).push(ev[i as int]));
            assert(r@ =~= prev.push(x));
            assert(servers_view(r@) =~= servers_view(prev).push(x@));
            assert(servers_from_yml(ev.take(i + 1)) =~= servers_from_yml(ev.take(i as int)).push(
                server_from_yml(ev[i as int]),
            ));
        }
        i += 1;
    }
    proof {
        assert(ev.take(entries@.len() as int) =~= ev);
    }
    r
}

/// The paths read from the blocks in `blocks`.
fn paths_from_blocks(blocks: Vec<String>, patterns: &StatusPatterns) -> (r: Vec<OpenApiPath>)
    requires
        patterns.wf(),
    ensures
        paths_view(r@) == paths_from_yml(strings_view(blocks@)),
{
    let ghost bv = strings_view(blocks@);
    let mut r: Vec<OpenApiPath> = Vec::new();
    let mut i: usize = 0;
    proof {
        assert(paths_view(r@) =~= paths_from_yml(bv.take(0)));
    }
    while i < blocks.len()
        invariant
            i <= blocks@.len(),
            bv == strings_view(blocks@),
            bv.len() == blocks@.len(),
            patterns.wf(),
            paths_view(r@) == paths_from_yml(bv.take(i as int)),
        decreases blocks@.len() - i,
    {
        let x = OpenApiPath::from_yml_string(blocks[i].clone(), patterns);
        let ghost prev = r@;
        r.push(x);
        proof {
            assert(bv.take(i + 1) =~= bv.take(i as int).push(bv[i as int]));
            assert(r@ =~= prev.push(x));
            assert(paths_view(r@) =~= paths_view(prev).push(x@));
            assert(paths_from_yml(bv.take(i + 1)) =~= paths_from_yml(bv.take(i as int)).push(
                path_from_yml(bv[i as int]),
            ));
        }
        i += 1;
    }
    proof {
        assert(bv.take(blocks@.len() as int) =~= bv);
    }
    r
}

impl OpenApi {
    fn new(openapi: String, info: OpenApiInfo, servers: Vec<OpenApiServer>, paths: Vec<OpenApiPath>) -> (r:
        OpenApi)
        ensures
            r@ == (OpenApiModel {
                openapi: openapi@,
                info: info@,
                servers: servers_view(servers@),
                paths: paths_view(paths@),
            }),
    {
        OpenApi { openapi, info, servers, paths }
    }

    fn default() -> (r: OpenApi)
        ensures
            r@ == (OpenApiModel {
                openapi: seq![],
                info: empty_info(),
                servers: seq![],
                paths: seq![],
            }),
    {
        let r = OpenApi {
            openapi: String::new(),
            info: OpenApiInfo::default(),
            servers: Vec::new(),
            paths: Vec::new(),
        };
        proof {
            assert(servers_view(r.servers@) =~= Seq::<ServerModel>::empty());
            assert(paths_view(r.paths@) =~= Seq::<PathModel>::empty());
        }
        r
    }

    /// Reads a document with the status-line patterns already compiled.
    pub fn from_yml_with(yml: &String, patterns: &StatusPatterns) -> (r: OpenApi)
        requires
            patterns.wf(),
        ensures
            r@ == openapi_from_yml(yml@),
    {
        let mut openapi_str: Vec<char> = Vec::new();
        let mut info_str: Vec<char> = Vec::new();
        let mut servers_str: Vec<char> = Vec::new();
        let mut paths_str: Vec<char> = Vec::new();
        let mut iter_info = false;
        let mut iter_servers = false;
        let mut iter_paths = false;

        let ls = split_lines(&chars_of(yml.as_str()));
        let ghost lv = char_vecs_view(ls@);
        let mut i: usize = 0;
        while i < ls.len()
            invariant
                i <= ls@.len(),
                lv == char_vecs_view(ls@),
                lv.len() == ls@.len(),
                top_fold(lv.take(i as int)) == (TopScan {
                    openapi: openapi_str@,
                    info: info_str@,
                    servers: servers_str@,
                    paths: paths_str@,
                    iter_info,
                    iter_servers,
                    iter_paths,
                }),
            decreases ls@.len() - i,
        {
            proof {
                assert(lv.take(i + 1).drop_last() =~= lv.take(i as int));
            }
            let line = &ls[i];
            if starts_with(line, "openapi: ") {
                push_chars(&mut openapi_str, &rm_yml_key(line));
            } else if starts_with(line, "info") {
                iter_info = true;
            } else if starts_with(line, "servers") {
                iter_servers = true;
                iter_info = false;
            } else if starts_with(line, "paths:") {
                iter_paths = true;
                iter_servers = false;
            }
            if iter_info {
                push_line(&mut info_str, line);
            } else if iter_servers {
                push_line(&mut servers_str, line);
            } else if iter_paths {
                push_line(&mut paths_str, line);
            }
            i += 1;
        }
        proof {
            assert(lv.take(ls@.len() as int) =~= lv);
        }
        let info = OpenApiInfo::from_yml_string(string_from_chars(&info_str));
        let servers = servers_from_entries(yml_list_2_vec(string_from_chars(&servers_str)));
        let paths = paths_from_blocks(
            yml_list_2_vec_by_separator(string_from_chars(&paths_str), "/"),
            patterns,
        );
        OpenApi { openapi: string_from_chars(&openapi_str), info, servers, paths }
    }

    /// Reads a document from its YAML text.  The status-line patterns are
    /// compiled on the way, so callers must know that `regex` accepts them
    /// (see [`Self::try_from_yml_string`] for a version that checks).
    pub fn from_yml_string(yml: &String) -> (r: OpenApi)
        requires
            regex_compiles(STATUS_LINE@),
            regex_compiles(STATUS_CODE@),
        ensures
            r@ == openapi_from_yml(yml@),
    {
        match StatusPatterns::compile() {
            Some(p) => OpenApi::from_yml_with(yml, &p),
            None => OpenApi::default(),
        }
    }

    /// Reads a document from its YAML text; `None` exactly when `regex`
    /// refuses one of the status-line patterns.
    pub fn try_from_yml_string(yml: &String) -> (r: Option<OpenApi>)
        ensures
            r is Some <==> (regex_compiles(STATUS_LINE@) && regex_compiles(STATUS_CODE@)),
            r matches Some(a) ==> a@ == openapi_from_yml(yml@),
    {
        match StatusPatterns::compile() {
            Some(_) => Some(OpenApi::from_yml_string(yml)),
            None => None,
        }
    }
}

// ---------------------------------------------------------------------------
// Writing
// ---------------------------------------------------------------------------
/// The text of a response.
pub open spec fn response_text(r: ResponseModel) -> Seq<char> {
    "        \""@ + r.code + "\"\n          description: "@ + r.description
        + "\n          content: "@ + r.content
}

/// The texts of responses.
pub open spec fn responses_text(rs: Seq<ResponseModel>) -> Seq<Seq<char>> {
    rs.map_values(|r: ResponseModel| response_text(r))
}

/// The text of a method.
pub open spec fn method_text(m: MethodModel) -> Seq<char> {
    "    "@ + m.method + ":\n      summary: "@ + m.summary + "\n      description: "@
        + m.description + "\n      responses: "@ + join_with(responses_text(m.responses), "\n"@)
}

/// The texts of methods.
pub open spec fn methods_text(ms: Seq<MethodModel>) -> Seq<Seq<char>> {
    ms.map_values(|m: MethodModel| method_text(m))
}

/// The text of a path.
pub open spec fn path_text(p: PathModel) -> Seq<char> {
    "  /"@ + p.path + ":\n"@ + join_with(methods_text(p.methods), "\n"@)
}

/// The texts of servers.
pub open spec fn servers_text(ss: Seq<ServerModel>) -> Seq<Seq<char>> {
    ss.map_values(|s: ServerModel| server_text(s))
}

/// The texts of paths.
pub open spec fn paths_text(ps: Seq<PathModel>) -> Seq<Seq<char>> {
    ps.map_values(|p: PathModel| path_text(p))
}

/// The text of a document.
pub open spec fn openapi_text(a: OpenApiModel) -> Seq<char> {
    "openapi: "@ + a.openapi + "\n"@ + info_text(a.info) + " \nservers:\n"@ + join_with(
        servers_text(a.servers),
        "\n"@,
    ) + " \npaths:\n"@ + join_with(paths_text(a.paths), "\n"@)
}

impl OpenApiResponse {
    fn to_string(&self) -> (r: String)
        ensures
            r@ == response_text(self@),
    {
        let mut r = String::new();
        r.append("        \"");
        r.append(self.code.as_str());
        r.append("\"\n          description: ");
        r.append(self.description.as_str());
        r.append("\n          content: ");
        r.append(self.content.as_str());
        r
    }
}

/// The texts of the responses in `rs`.
fn response_texts(rs: &Vec<OpenApiResponse>) -> (r: Vec<String>)
    ensures
        strings_view(r@) == responses_text(responses_view(rs@)),
{
    let ghost rv = responses_view(rs@);
    let mut r: Vec<String> = Vec::new();
    let mut i: usize = 0;
    proof {
        assert(strings_view(r@) =~= responses_text(rv.take(0)));
    }
    while i < rs.len()
        invariant
            i <= rs@.len(),
            rv == responses_view(rs@),
            rv.len() == rs@.len(),
            strings_view(r@) == responses_text(rv.take(i as int)),
        decreases rs@.len() - i,
    {
        let t = rs[i].to_string();
        let ghost prev = r@;
        r.push(t);
        proof {
            assert(rv.take(i + 1) =~= rv.take(i as int).push(rv[i as int]));
            assert(strings_view(r@) =~= strings_view(prev).push(t@));
            assert(responses_text(rv.take(i + 1)) =~= responses_text(rv.take(i as int)).push(
                response_text(rv[i as int]),
            ));
        }
        i += 1;
    }
    proof {
        assert(rv.take(rs@.len() as int) =~= rv);
    }
    r
}

impl OpenApiMethod {
    fn to_string(&self) -> (r: String)
        ensures
            r@ == method_text(self@),
    {
        let mut r = String::new();
        r.append("    ");
        r.append(self.method.as_str());
        r.append(":\n      summary: ");
        r.append(self.summary.as_str());
        r.append("\n      description: ");
        r.append(self.description.as_str());
        r.append("\n      responses: ");
        r.append(join_strings(&response_texts(&self.responses), "\n").as_str());
        r
    }
}

/// The texts of the methods in `ms`.
fn method_texts(ms: &Vec<OpenApiMethod>) -> (r: Vec<String>)
    ensures
        strings_view(r@) == methods_text(methods_view(ms@)),
{
    let ghost mv = methods_view(ms@);
    let mut r: Vec<String> = Vec::new();
    let mut i: usize = 0;
    proof {
        assert(strings_view(r@) =~= methods_text(mv.take(0)));
    }
    while i < ms.len()
        invariant
            i <= ms@.len(),
            mv == methods_view(ms@),
            mv.len() == ms@.len(),
            strings_view(r@) == methods_text(mv.take(i as int)),
        decreases ms@.len() - i,
    {
        let t = ms[i].to_string();
        let ghost prev = r@;
        r.push(t);
        proof {
            assert(mv.take(i + 1) =~= mv.take(i as int).push(mv[i as int]));
            assert(strings_view(r@) =~= strings_view(prev).push(t@));
            assert(methods_text(mv.take(i + 1)) =~= methods_text(mv.take(i as int)).push(
                method_text(mv[i as int]),
            ));
        }
        i += 1;
    }
    proof {
        assert(mv.take(ms@.len() as int) =~= mv);
    }
    r
}

impl OpenApiPath {
    fn to_string(&self) -> (r: String)
        ensures
            r@ == path_text(self@),
    {
        let mut r = String::new();
        r.append("  /");
        r.append(self.path.as_str());
        r.append(":\n");
        r.append(join_strings(&method_texts(&self.methods), "\n").as_str());
        r
    }
}

/// The texts of the servers in `ss`.
fn server_texts(ss: &Vec<OpenApiServer>) -> (r: Vec<String>)
    ensures
        strings_view(r@) == servers_text(servers_view(ss@)),
{
    let ghost sv = servers_view(ss@);
    let mut r: Vec<String> = Vec::new();
    let mut i: usize = 0;
    proof {
        assert(strings_view(r@) =~= servers_text(sv.take(0)));
    }
    while i < ss.len()
        invariant
            i <= ss@.len(),
            sv == servers_view(ss@),
            sv.len() == ss@.len(),
            strings_view(r@) == servers_text(sv.take(i as int)),
        decreases ss@.len() - i,
    {
        let t = ss[i].to_string();
        let ghost prev = r@;
        r.push(t);
        proof {
            assert(sv.take(i + 1) =~= sv.take(i as int).push(sv[i as int]));
            assert(strings_view(r@) =~= strings_view(prev).push(t@));
            assert(servers_text(sv.take(i + 1)) =~= servers_text(sv.take(i as int)).push(
                server_text(sv[i as int]),
            ));
        }
        i += 1;
    }
    proof {
        assert(sv.take(ss@.len() as int) =~= sv);
    }
    r
}

/// The texts of the paths in `ps`.
fn path_texts(ps: &Vec<OpenApiPath>) -> (r: Vec<String>)
    ensures
        strings_view(r@) == paths_text(paths_view(ps@)),
{
    let ghost pv = paths_view(ps@);
    let mut r: Vec<String> = Vec::new();
    let mut i: usize = 0;
    proof {
        assert(strings_view(r@) =~= paths_text(pv.take(0)));
    }
    while i < ps.len()
        invariant
            i <= ps@.len(),
            pv == paths_view(ps@),
            pv.len() == ps@.len(),
            strings_view(r@) == paths_text(pv.take(i as int)),
        decreases ps@.len() - i,
    {
        let t = ps[i].to_string();
        let ghost prev = r@;
        r.push(t);
        proof {
            assert(pv.take(i + 1) =~= pv.take(i as int).push(pv[i as int]));
            assert(strings_view(r@) =~= strings_view(prev).push(t@));
            assert(paths_text(pv.take(i + 1)) =~= paths_text(pv.take(i as int)).push(
                path_text(pv[i as int]),
            ));
        }
        i += 1;
    }
    proof {
        assert(pv.take(ps@.len() as int) =~= pv);
    }
    r
}

impl OpenApi {
    /// The document as YAML text.
    pub fn to_string(&self) -> (r: String)
        ensures
            r@ == openapi_text(self@),
    {
        let mut r = String::new();
        r.append("openapi: ");
        r.append(self.openapi.as_str());
        r.append("\n");
        r.append(self.info.to_string().as_str());
        r.append(" \nservers:\n");
        r.append(join_strings(&server_texts(&self.servers), "\n").as_str());
        r.append(" \npaths:\n");
        r.append(join_strings(&path_texts(&self.paths), "\n").as_str());
        r
    }
}

// ---------------------------------------------------------------------------
// Reading the parts of a document
// ---------------------------------------------------------------------------
impl OpenApiInfo {
    /// The title.
    pub fn title(&self) -> (r: &String)
        ensures
            r@ == self@.title,
    {
        &self.title
    }

    /// The version.
    pub fn version(&self) -> (r: &String)
        ensures
            r@ == self@.version,
    {
        &self.version
    }
}

impl OpenApiServer {
    /// The server's URL.
    pub fn url(&self) -> (r: &String)
        ensures
            r@ == self@.url,
    {
        &self.url
    }
}

impl OpenApiPath {
    /// The path, without its leading `/`.
    pub fn path(&self) -> (r: &String)
        ensures
            r@ == self@.path,
    {
        &self.path
    }

    /// The methods of the path.
    pub fn methods(&self) -> (r: &Vec<OpenApiMethod>)
        ensures
            methods_view(r@) == self@.methods,
    {
        &self.methods
    }
}

impl OpenApiMethod {
    /// The HTTP method, such as `get`.
    pub fn method(&self) -> (r: &String)
        ensures
            r@ == self@.method,
    {
        &self.method
    }

    /// The summary.
    pub fn summary(&self) -> (r: &String)
        ensures
            r@ == self@.summary,
    {
        &self.summary
    }

    /// The responses.
    pub fn responses(&self) -> (r: &Vec<OpenApiResponse>)
        ensures
            responses_view(r@) == self@.responses,
    {
        &self.responses
    }
}

impl OpenApiResponse {
    /// The status code, such as `200`.
    pub fn code(&self) -> (r: &String)
        ensures
            r@ == self@.code,
    {
        &self.code
    }

    /// The response's description.
    pub fn description(&self) -> (r: &String)
        ensures
            r@ == self@.description,
    {
        &self.description
    }

    /// The response's content.
    pub fn content(&self) -> (r: &String)
        ensures
            r@ == self@.content,
    {
        &self.content
    }
}

} // verus!
