//! Writing the paths of a document and reading them back.
//!
//! The writer indents every line of a path; the reader drops those indents
//! when it cuts the paths section into entries.  The lemmas below follow each
//! element (response, header, request body, method, path) through both, and
//! name what its values must avoid for the reader to give them back.
use vstd::prelude::*;
use crate::text::{
    lines_text, lemma_lines_text_concat, lemma_lines_of_lines_text, lemma_lines_text_joined,
    lemma_leading_spaces_concat, lemma_char_pos_concat, lemma_key_line, lemma_not_prefix,
    lemma_lines_of_joined, has_prefix, join_with, lines_of, no_newline, trim_start_spaces,
    leading_spaces, with_newline, before_char, first_yml_key_spec, first_key_of_lines, yml_value,
    is_white_space, trim_white_space, leading_white_space, trailing_white_space, trim_end_char,
    trailing_char, ends_with_char, after_key_scan, has_prefix_after_spaces, skip_first_line,
    drop_first_char,
};
use crate::yml::{
    ResponseModel, response_parts, response_fold, response_from_yml, HeaderModel, header_parts,
    header_fold, header_step, header_from_yml, empty_header, is_method_line, RequestBodyModel,
    body_parts, body_from_yml, required_fold, MethodModel, MethodScan, method_step, method_fold,
    method_scan_start, http_methods, first_method_key, scan_method_name, close_headers,
    is_new_header_line, flushed, body_is_empty, method_from_yml, headers_from_yml,
    responses_from_yml, method_parts, method_text, headers_text, responses_text, body_text,
    method_chunk_scan, method_chunks, methods_from_yml, PathModel, path_from_yml, path_text,
    methods_text, list_scan, paths_text, paths_from_yml,
};
use crate::status_pattern::{
    quoted_status, quoted_status_code, is_ascii_digit,
};
use crate::laws::{
    is_line_value, all_line_values, lemma_lines_text_push, lemma_line_value_concat,
    lemma_all_line_values_concat, lemma_list_scan_push,
};

verus! {

// ---------------------------------------------------------------------------
// Indents and runs of lines
// ---------------------------------------------------------------------------
/// `n` spaces.
pub open spec fn spaces(n: nat) -> Seq<char> {
    Seq::new(n, |i: int| ' ')
}

/// Dropping the indent of a line whose text does not start with a space.
proof fn lemma_trim_indent(n: nat, core: Seq<char>)
    requires
        core.len() == 0 || core[0] != ' ',
    ensures
        trim_start_spaces(spaces(n) + core) == core,
{
    lemma_leading_spaces_concat(spaces(n), core);
    assert(leading_spaces(core) == 0);
    assert(core.skip(0) =~= core);
}

/// The lines `ls` with their leading spaces dropped.
pub open spec fn trimmed(ls: Seq<Seq<char>>) -> Seq<Seq<char>> {
    ls.map_values(|l: Seq<char>| trim_start_spaces(l))
}

proof fn lemma_trimmed_concat(a: Seq<Seq<char>>, b: Seq<Seq<char>>)
    ensures
        trimmed(a + b) == trimmed(a) + trimmed(b),
{
    assert(trimmed(a + b) =~= trimmed(a) + trimmed(b));
}

/// A prefix that differs from `s` at some position does not start `s`.
proof fn lemma_prefix_differs(s: Seq<char>, p: Seq<char>, i: int)
    requires
        0 <= i < p.len(),
        i < s.len(),
        s[i] != p[i],
    ensures
        !has_prefix(s, p),
{
    if has_prefix(s, p) {
        assert(s.subrange(0, p.len() as int)[i] == s[i]);
    }
}

/// A line of the form `key + " " + v`.
pub open spec fn kv(key: Seq<char>, v: Seq<char>) -> Seq<char> {
    key + seq![' '] + v
}

pub(crate) proof fn lemma_kv(key: Seq<char>, v: Seq<char>)
    requires
        key.len() > 0,
        forall|i: int| 0 <= i < key.len() ==> key[i] != ' ',
    ensures
        yml_value(kv(key, v)) == v,
        has_prefix(kv(key, v), key),
        kv(key, v)[0] == key[0],
        no_newline(key) && is_line_value(v) ==> is_line_value(kv(key, v)),
{
    lemma_key_line(Seq::<char>::empty(), key, v);
    assert(Seq::<char>::empty() + key + seq![' '] + v =~= kv(key, v));
    if no_newline(key) && is_line_value(v) {
        assert(no_newline(key + seq![' '])) by {
            assert forall|i: int| 0 <= i < (key + seq![' ']).len() implies (key + seq![' '])[i]
                != '\n' by {
                if i < key.len() {
                    assert((key + seq![' '])[i] == key[i]);
                }
            }
        }
        lemma_line_value_concat(key + seq![' '], v);
    }
}

// ---------------------------------------------------------------------------
// Responses
// ---------------------------------------------------------------------------
/// Whether `code` is three ASCII digits.
pub open spec fn is_status_code(code: Seq<char>) -> bool {
    &&& code.len() == 3
    &&& forall|i: int| 0 <= i < 3 ==> is_ascii_digit(#[trigger] code[i])
}

/// The line `"` + code + `":` that opens a response.
pub open spec fn code_line(code: Seq<char>) -> Seq<char> {
    seq!['"'] + code + seq!['"', ':']
}

/// The line `ct + ": {}"` that names a content type.
pub open spec fn content_line(ct: Seq<char>) -> Seq<char> {
    ct + seq![':', ' ', '{', '}']
}

/// Whether `s` holds no `:`.
pub open spec fn no_colon(s: Seq<char>) -> bool {
    forall|i: int| 0 <= i < s.len() ==> s[i] != ':'
}

/// The lines of a response once their indents are dropped.
pub open spec fn response_core(r: ResponseModel) -> Seq<Seq<char>> {
    let p0 = seq![code_line(r.code)];
    let p1 = if r.description.len() > 0 {
        p0.push(kv("description:"@, r.description))
    } else {
        p0
    };
    if r.content_type.len() > 0 {
        p1.push("content:"@).push(content_line(r.content_type))
    } else {
        p1
    }
}

/// The content type of a response can be read back: its line holds no line
/// break, it has no `:`, it does not start with a space or `/`, and its line
/// looks like no line that the readers of a response, a method or a list of
/// paths act on.
pub open spec fn response_content_type_ok(ct: Seq<char>) -> bool {
    let l = content_line(ct);
    &&& no_newline(ct)
    &&& no_colon(ct)
    &&& ct.len() > 0 ==> ct[0] != ' ' && ct[0] != '/'
    &&& !quoted_status(l)
    &&& !has_prefix(l, "description:"@)
    &&& !has_prefix(l, "headers:"@)
    &&& !has_prefix(l, "requestBody"@)
    &&& !is_method_line(l)
}

/// A response that reads back as itself once written.
pub open spec fn response_ok(r: ResponseModel) -> bool {
    &&& is_status_code(r.code)
    &&& is_line_value(r.description)
    &&& response_content_type_ok(r.content_type)
}

proof fn lemma_response_parts_trimmed(r: ResponseModel)
    requires
        r.content_type.len() == 0 || r.content_type[0] != ' ',
    ensures
        trimmed(response_parts(r)) == response_core(r),
{
    reveal_strlit("        \"");
    reveal_strlit("\":");
    reveal_strlit("          description: ");
    reveal_strlit("description:");
    reveal_strlit("          content:");
    reveal_strlit("content:");
    reveal_strlit("            ");
    reveal_strlit(": {}");
    let a0 = "        \""@ + r.code + "\":"@;
    assert(a0 =~= spaces(8) + code_line(r.code));
    lemma_trim_indent(8, code_line(r.code));
    let a1 = "          description: "@ + r.description;
    assert(a1 =~= spaces(10) + kv("description:"@, r.description));
    lemma_trim_indent(10, kv("description:"@, r.description));
    assert("          content:"@ =~= spaces(10) + "content:"@);
    lemma_trim_indent(10, "content:"@);
    let a3 = "            "@ + r.content_type + ": {}"@;
    assert(a3 =~= spaces(12) + content_line(r.content_type));
    lemma_trim_indent(12, content_line(r.content_type));
    assert(trimmed(response_parts(r)) =~= response_core(r));
}

/// Reading one more line of a response block.
proof fn lemma_response_fold_push(ls: Seq<Seq<char>>, l: Seq<char>)
    ensures
        response_fold(ls.push(l)) == crate::yml::response_step(response_fold(ls), l),
{
    assert(ls.push(l).drop_last() =~= ls);
}

/// The lines of a response hold no line break and end with no carriage
/// return.
proof fn lemma_response_core_lines(r: ResponseModel)
    requires
        response_ok(r),
    ensures
        all_line_values(response_core(r)),
        response_core(r).len() > 0,
        response_core(r)[0] == code_line(r.code),
{
    reveal_strlit("description:");
    reveal_strlit("content:");
    let c = response_core(r);
    assert(is_line_value(code_line(r.code)));
    lemma_kv("description:"@, r.description);
    assert(is_line_value("content:"@));
    assert(is_line_value(content_line(r.content_type)));
    assert forall|i: int| 0 <= i < c.len() implies is_line_value(#[trigger] c[i]) by {
        if i == 0 {
        } else if r.description.len() > 0 && i == 1 {
        } else if i == c.len() - 2 {
        } else {
        }
    }
}

/// Reading the lines of a written response gives the response back.
proof fn lemma_response_read(r: ResponseModel)
    requires
        response_ok(r),
    ensures
        response_from_yml(lines_text(response_core(r))) == r,
{
    reveal_strlit("description:");
    reveal_strlit("content:");
    let c0 = code_line(r.code);
    let c1 = kv("description:"@, r.description);
    let c2 = "content:"@;
    let c3 = content_line(r.content_type);
    let e = Seq::<Seq<char>>::empty();
    lemma_response_core_lines(r);
    lemma_lines_of_lines_text(response_core(r));
    // the code line
    lemma_response_fold_push(e, c0);
    assert(seq![c0] =~= e.push(c0));
    assert(quoted_status(c0));
    assert(quoted_status_code(c0) =~= r.code);
    let s0 = response_fold(seq![c0]);
    assert(s0.code == r.code && !s0.reading_content && s0.content.len() == 0);
    assert(s0.description.len() == 0);
    // the description line
    lemma_kv("description:"@, r.description);
    let p1 = if r.description.len() > 0 { seq![c0].push(c1) } else { seq![c0] };
    if r.description.len() > 0 {
        lemma_response_fold_push(seq![c0], c1);
        assert(!quoted_status(c1));
    }
    let s1 = response_fold(p1);
    assert(s1.code == r.code && !s1.reading_content && s1.content.len() == 0);
    assert(s1.description == r.description);
    if r.content_type.len() > 0 {
        lemma_response_fold_push(p1, c2);
        lemma_response_fold_push(p1.push(c2), c3);
        lemma_not_prefix(c2, "description:"@);
        assert(has_prefix(c2, "content:"@)) by {
            assert(c2.subrange(0, 8) =~= "content:"@);
        }
        let s3 = response_fold(p1.push(c2).push(c3));
        assert(s3.content =~= with_newline(c3));
        assert(response_core(r) == p1.push(c2).push(c3));
        // the content type is the key of its line
        let e1 = seq![c3];
        lemma_lines_text_push(e, c3);
        assert(e1 =~= e.push(c3));
        assert(lines_text(e) == Seq::<char>::empty());
        assert(lines_text(e1) =~= with_newline(c3));
        assert(all_line_values(e1));
        lemma_lines_of_lines_text(e1);
        lemma_trim_indent(0, c3);
        assert(spaces(0) + c3 =~= c3);
        lemma_char_pos_concat(r.content_type, seq![':', ' ', '{', '}'], ':');
        assert(c3.take(r.content_type.len() as int) =~= r.content_type);
        assert(first_key_of_lines(e1) == before_char(c3, ':'));
        assert(before_char(c3, ':') == r.content_type);
        assert(lines_of(s3.content) == e1);
        assert(first_yml_key_spec(s3.content) == r.content_type);
        assert(s3.description == r.description);
        assert(s3.code == r.code);
    } else {
        assert(response_core(r) == p1);
        assert(lines_of(Seq::<char>::empty()) =~= e) by {
            assert(crate::text::line_scan(Seq::<char>::empty()) == (e, Seq::<char>::empty()));
        }
        assert(first_yml_key_spec(s1.content) =~= r.content_type);
    }
    let got = response_from_yml(lines_text(response_core(r)));
    assert(got.code == r.code && got.description == r.description);
    assert(got.content_type == r.content_type);
}

// ---------------------------------------------------------------------------
// Headers
// ---------------------------------------------------------------------------
/// The line `name + ":"` that opens a header.
pub open spec fn name_line(name: Seq<char>) -> Seq<char> {
    name + seq![':']
}

/// The lines of a header once their indents are dropped.
pub open spec fn header_core(h: HeaderModel) -> Seq<Seq<char>> {
    let p0 = seq![name_line(h.name)];
    let p1 = if h.description.len() > 0 {
        p0.push(kv("description:"@, h.description))
    } else {
        p0
    };
    let p2 = if h.header_type.len() > 0 {
        p1.push(kv("type:"@, h.header_type))
    } else {
        p1
    };
    if h.example.len() > 0 {
        p2.push(kv("example:"@, h.example))
    } else {
        p2
    }
}

/// A header name that can be read back: no line break, no white space or `/`
/// at its start, no `:` at its end, and its line looks like no line that the
/// readers of a header, a method or a list of paths act on.
pub open spec fn header_name_ok(name: Seq<char>) -> bool {
    let l = name_line(name);
    &&& no_newline(name)
    &&& name.len() > 0 ==> !is_white_space(name[0]) && name[0] != '/' && name.last() != ':'
    &&& !has_prefix(l, "description:"@)
    &&& !has_prefix(l, "type:"@)
    &&& !has_prefix(l, "example:"@)
    &&& !has_prefix(l, "headers:"@)
    &&& !has_prefix(l, "requestBody"@)
    &&& !has_prefix(l, "responses:"@)
    &&& !quoted_status(l)
    &&& !is_method_line(l)
}

/// A header value that can be read back: no line break, and no white space at
/// its end (the reader trims it).
pub open spec fn header_value_ok(v: Seq<char>) -> bool {
    &&& no_newline(v)
    &&& v.len() > 0 ==> !is_white_space(v.last())
}

/// A header that the header reader gives back once it is written: a name with
/// no line break, no white space at its start and no `:` at its end, whose
/// line does not start like a value line, and values that can be read back.
pub open spec fn header_reads_back(h: HeaderModel) -> bool {
    let l = name_line(h.name);
    &&& no_newline(h.name)
    &&& h.name.len() > 0 ==> !is_white_space(h.name[0]) && h.name.last() != ':'
    &&& !has_prefix(l, "description:"@)
    &&& !has_prefix(l, "type:"@)
    &&& !has_prefix(l, "example:"@)
    &&& header_value_ok(h.description)
    &&& header_value_ok(h.header_type)
    &&& header_value_ok(h.example)
}

/// A header that reads back as itself once written within a method block.
pub open spec fn header_ok(h: HeaderModel) -> bool {
    &&& header_name_ok(h.name)
    &&& header_value_ok(h.description)
    &&& header_value_ok(h.header_type)
    &&& header_value_ok(h.example)
}

proof fn lemma_header_parts_trimmed(h: HeaderModel)
    requires
        h.name.len() == 0 || h.name[0] != ' ',
    ensures
        trimmed(header_parts(h)) == header_core(h),
{
    reveal_strlit("        ");
    reveal_strlit(":");
    reveal_strlit("          description: ");
    reveal_strlit("description:");
    reveal_strlit("          type: ");
    reveal_strlit("type:");
    reveal_strlit("          example: ");
    reveal_strlit("example:");
    assert("        "@ + h.name + ":"@ =~= spaces(8) + name_line(h.name));
    lemma_trim_indent(8, name_line(h.name));
    assert("          description: "@ + h.description =~= spaces(10) + kv(
        "description:"@,
        h.description,
    ));
    lemma_trim_indent(10, kv("description:"@, h.description));
    assert("          type: "@ + h.header_type =~= spaces(10) + kv("type:"@, h.header_type));
    lemma_trim_indent(10, kv("type:"@, h.header_type));
    assert("          example: "@ + h.example =~= spaces(10) + kv("example:"@, h.example));
    lemma_trim_indent(10, kv("example:"@, h.example));
    assert(trimmed(header_parts(h)) =~= header_core(h));
}

/// Trimming a text that starts and ends with no white space changes nothing.
proof fn lemma_trim_white_space_noop(s: Seq<char>)
    requires
        s.len() > 0,
        !is_white_space(s[0]),
        !is_white_space(s.last()),
    ensures
        trim_white_space(s) == s,
{
    assert(leading_white_space(s) == 0);
    assert(s.skip(0) =~= s);
    assert(trailing_white_space(s) == 0);
    assert(s.take(s.len() as int) =~= s);
}

proof fn lemma_header_fold_push(ls: Seq<Seq<char>>, l: Seq<char>)
    ensures
        header_fold(ls.push(l)) == header_step(header_fold(ls), l),
{
    assert(ls.push(l).drop_last() =~= ls);
}

/// The lines of a header hold no line break and end with no carriage return.
proof fn lemma_header_core_lines(h: HeaderModel)
    requires
        header_reads_back(h),
    ensures
        all_line_values(header_core(h)),
        header_core(h).len() > 0,
        header_core(h)[0] == name_line(h.name),
{
    reveal_strlit("description:");
    reveal_strlit("type:");
    reveal_strlit("example:");
    let n = name_line(h.name);
    assert(is_line_value(n)) by {
        assert forall|i: int| 0 <= i < n.len() implies n[i] != '\n' by {
            if i < h.name.len() {
                assert(n[i] == h.name[i]);
            }
        }
    }
    assert(is_white_space('\r'));
    let p0 = seq![n];
    assert(all_line_values(p0));
    let cd = kv("description:"@, h.description);
    let p1 = if h.description.len() > 0 { p0.push(cd) } else { p0 };
    if h.description.len() > 0 {
        lemma_kv("description:"@, h.description);
        lemma_all_line_values_concat(p0, seq![cd]);
        assert(p0.push(cd) =~= p0 + seq![cd]);
    }
    let ct = kv("type:"@, h.header_type);
    let p2 = if h.header_type.len() > 0 { p1.push(ct) } else { p1 };
    if h.header_type.len() > 0 {
        lemma_kv("type:"@, h.header_type);
        lemma_all_line_values_concat(p1, seq![ct]);
        assert(p1.push(ct) =~= p1 + seq![ct]);
    }
    let ce = kv("example:"@, h.example);
    if h.example.len() > 0 {
        lemma_kv("example:"@, h.example);
        lemma_all_line_values_concat(p2, seq![ce]);
        assert(p2.push(ce) =~= p2 + seq![ce]);
    }
}

/// Reading a `key: value` line of a header.
proof fn lemma_header_value_line(key: Seq<char>, v: Seq<char>)
    requires
        key.len() > 0,
        forall|i: int| 0 <= i < key.len() ==> key[i] != ' ' && !is_white_space(key[i]),
        v.len() > 0,
        header_value_ok(v),
    ensures
        trim_white_space(kv(key, v)) == kv(key, v),
        yml_value(kv(key, v)) == v,
        has_prefix(kv(key, v), key),
        kv(key, v).len() > 0,
{
    lemma_kv(key, v);
    assert(kv(key, v).last() == v.last());
    lemma_trim_white_space_noop(kv(key, v));
}

/// Reading the lines of a written header gives the header back.
proof fn lemma_header_read(h: HeaderModel)
    requires
        header_reads_back(h),
    ensures
        header_from_yml(lines_text(header_core(h))) == h,
{
    reveal_strlit("description:");
    reveal_strlit("type:");
    reveal_strlit("example:");
    let e = Seq::<Seq<char>>::empty();
    let n = name_line(h.name);
    let cd = kv("description:"@, h.description);
    let ct = kv("type:"@, h.header_type);
    let ce = kv("example:"@, h.example);
    lemma_header_core_lines(h);
    lemma_lines_of_lines_text(header_core(h));
    // the name line
    assert(n.last() == ':');
    if h.name.len() > 0 {
        assert(n[0] == h.name[0]);
    }
    assert(!is_white_space(':'));
    lemma_trim_white_space_noop(n);
    assert(n.drop_last() =~= h.name);
    assert(trailing_char(h.name, ':') == 0);
    assert(trailing_char(n, ':') == 1);
    assert(trim_end_char(n, ':') =~= h.name);
    lemma_header_fold_push(e, n);
    assert(seq![n] =~= e.push(n));
    assert(ends_with_char(n, ':'));
    let s0 = header_fold(seq![n]);
    assert(s0 == HeaderModel { name: h.name, ..empty_header() });
    // the value lines
    let p1 = if h.description.len() > 0 { seq![n].push(cd) } else { seq![n] };
    if h.description.len() > 0 {
        lemma_header_value_line("description:"@, h.description);
        lemma_header_fold_push(seq![n], cd);
    }
    let s1 = header_fold(p1);
    assert(s1.name == h.name && s1.description =~= h.description);
    assert(s1.header_type.len() == 0 && s1.example.len() == 0);
    let p2 = if h.header_type.len() > 0 { p1.push(ct) } else { p1 };
    if h.header_type.len() > 0 {
        lemma_header_value_line("type:"@, h.header_type);
        lemma_header_fold_push(p1, ct);
        lemma_not_prefix(ct, "description:"@);
    }
    let s2 = header_fold(p2);
    assert(s2.name == h.name && s2.description =~= h.description);
    assert(s2.header_type =~= h.header_type && s2.example.len() == 0);
    let p3 = if h.example.len() > 0 { p2.push(ce) } else { p2 };
    if h.example.len() > 0 {
        lemma_header_value_line("example:"@, h.example);
        lemma_header_fold_push(p2, ce);
        lemma_not_prefix(ce, "description:"@);
        lemma_not_prefix(ce, "type:"@);
    }
    let s3 = header_fold(p3);
    assert(p3 == header_core(h));
    assert(s3.name == h.name && s3.description =~= h.description);
    assert(s3.header_type =~= h.header_type && s3.example =~= h.example);
}

// ---------------------------------------------------------------------------
// Request bodies
// ---------------------------------------------------------------------------
/// The lines of a request body once their indents are dropped.
pub open spec fn body_core(b: RequestBodyModel) -> Seq<Seq<char>> {
    let p0 = seq!["requestBody:"@];
    let p1 = if b.required {
        p0.push(kv("required:"@, "true"@))
    } else {
        p0
    };
    if b.content_type.len() > 0 {
        p1.push("content:"@).push(content_line(b.content_type))
    } else {
        p1
    }
}

/// The content type of a request body can be read back: its line holds no
/// line break, it has no `:`, it does not start with a space or `/`, and its
/// line looks like no line that the readers of a request body, a method or a
/// list of paths act on.
pub open spec fn body_content_type_ok(ct: Seq<char>) -> bool {
    let l = content_line(ct);
    &&& no_newline(ct)
    &&& no_colon(ct)
    &&& ct.len() > 0 ==> ct[0] != ' ' && ct[0] != '/'
    &&& !quoted_status(l)
    &&& !has_prefix(l, "required:"@)
    &&& !has_prefix(l, "summary:"@)
    &&& !has_prefix(l, "description"@)
    &&& !has_prefix(l, "headers:"@)
    &&& !has_prefix(l, "responses:"@)
    &&& !is_method_line(l)
}

proof fn lemma_body_parts_trimmed(b: RequestBodyModel)
    requires
        b.content_type.len() == 0 || b.content_type[0] != ' ',
    ensures
        trimmed(body_parts(b)) == body_core(b),
{
    reveal_strlit("      requestBody:");
    reveal_strlit("requestBody:");
    reveal_strlit("        required: true");
    reveal_strlit("required:");
    reveal_strlit("true");
    reveal_strlit("        content:");
    reveal_strlit("content:");
    reveal_strlit("          ");
    reveal_strlit(": {}");
    assert("      requestBody:"@ =~= spaces(6) + "requestBody:"@);
    lemma_trim_indent(6, "requestBody:"@);
    assert("        required: true"@ =~= spaces(8) + kv("required:"@, "true"@));
    lemma_trim_indent(8, kv("required:"@, "true"@));
    assert("        content:"@ =~= spaces(8) + "content:"@);
    lemma_trim_indent(8, "content:"@);
    assert("          "@ + b.content_type + ": {}"@ =~= spaces(10) + content_line(b.content_type));
    lemma_trim_indent(10, content_line(b.content_type));
    assert(trimmed(body_parts(b)) =~= body_core(b));
}

/// The key of a content line alone is its content type.
proof fn lemma_content_key(ct: Seq<char>)
    requires
        no_colon(ct),
        ct.len() == 0 || ct[0] != ' ',
        no_newline(ct),
    ensures
        first_yml_key_spec(with_newline(content_line(ct))) == ct,
{
    let c3 = content_line(ct);
    let e = Seq::<Seq<char>>::empty();
    let e1 = seq![c3];
    lemma_lines_text_push(e, c3);
    assert(e1 =~= e.push(c3));
    assert(lines_text(e) == Seq::<char>::empty());
    assert(lines_text(e1) =~= with_newline(c3));
    assert(is_line_value(c3)) by {
        assert forall|i: int| 0 <= i < c3.len() implies c3[i] != '\n' by {
            if i < ct.len() {
                assert(c3[i] == ct[i]);
            }
        }
    }
    assert(all_line_values(e1));
    lemma_lines_of_lines_text(e1);
    lemma_trim_indent(0, c3);
    assert(spaces(0) + c3 =~= c3);
    lemma_char_pos_concat(ct, seq![':', ' ', '{', '}'], ':');
    assert(c3.take(ct.len() as int) =~= ct);
    assert(first_key_of_lines(e1) == before_char(c3, ':'));
}

proof fn lemma_after_key_push(ls: Seq<Seq<char>>, l: Seq<char>, key: Seq<char>)
    ensures
        after_key_scan(ls.push(l), key) == ({
            let (acc, building) = after_key_scan(ls, key);
            (if building {
                acc + with_newline(l)
            } else {
                acc
            }, building || has_prefix_after_spaces(l, key))
        }),
{
    assert(ls.push(l).drop_last() =~= ls);
}

proof fn lemma_required_push(ls: Seq<Seq<char>>, l: Seq<char>)
    ensures
        required_fold(ls.push(l)) == (if has_prefix(l, "required:"@) {
            trim_white_space(yml_value(l)) == "true"@
        } else {
            required_fold(ls)
        }),
{
    assert(ls.push(l).drop_last() =~= ls);
}

/// The lines of a request body hold no line break and end with no carriage
/// return.
proof fn lemma_body_core_lines(b: RequestBodyModel)
    requires
        body_content_type_ok(b.content_type),
    ensures
        all_line_values(body_core(b)),
        body_core(b).len() > 0,
        body_core(b)[0] == "requestBody:"@,
{
    reveal_strlit("requestBody:");
    reveal_strlit("required:");
    reveal_strlit("true");
    reveal_strlit("content:");
    let c = body_core(b);
    lemma_kv("required:"@, "true"@);
    assert(is_line_value(content_line(b.content_type))) by {
        assert forall|i: int| 0 <= i < content_line(b.content_type).len() implies content_line(
            b.content_type,
        )[i] != '\n' by {
            if i < b.content_type.len() {
                assert(content_line(b.content_type)[i] == b.content_type[i]);
            }
        }
    }
    assert forall|i: int| 0 <= i < c.len() implies is_line_value(#[trigger] c[i]) by {
        if i == 0 {
        } else if b.required && i == 1 {
        } else if i == c.len() - 2 {
        } else {
        }
    }
}

/// Reading the lines of a written request body gives the body back.
proof fn lemma_body_read(b: RequestBodyModel)
    requires
        body_content_type_ok(b.content_type),
    ensures
        body_from_yml(lines_text(body_core(b))) == b,
{
    reveal_strlit("requestBody:");
    reveal_strlit("required:");
    reveal_strlit("true");
    reveal_strlit("content:");
    let e = Seq::<Seq<char>>::empty();
    let c0 = "requestBody:"@;
    let c1 = kv("required:"@, "true"@);
    let c2 = "content:"@;
    let c3 = content_line(b.content_type);
    lemma_body_core_lines(b);
    lemma_lines_of_lines_text(body_core(b));
    lemma_kv("required:"@, "true"@);
    lemma_trim_white_space_noop("true"@);
    lemma_prefix_differs(c0, "required:"@, 4);
    lemma_not_prefix(c2, "required:"@);
    lemma_trim_indent(0, c0);
    lemma_trim_indent(0, c1);
    lemma_trim_indent(0, c2);
    lemma_trim_indent(0, c3);
    assert(spaces(0) + c0 =~= c0);
    assert(spaces(0) + c1 =~= c1);
    assert(spaces(0) + c2 =~= c2);
    assert(spaces(0) + c3 =~= c3);
    lemma_not_prefix(c0, "content:"@);
    lemma_not_prefix(c1, "content:"@);
    assert(has_prefix(c2, "content:"@)) by {
        assert(c2.subrange(0, 8) =~= "content:"@);
    }
    // the key line
    lemma_required_push(e, c0);
    lemma_after_key_push(e, c0, "content:"@);
    assert(seq![c0] =~= e.push(c0));
    assert(required_fold(seq![c0]) == false);
    assert(after_key_scan(seq![c0], "content:"@) == (Seq::<char>::empty(), false));
    let p1 = if b.required { seq![c0].push(c1) } else { seq![c0] };
    if b.required {
        lemma_required_push(seq![c0], c1);
        lemma_after_key_push(seq![c0], c1, "content:"@);
    }
    assert(required_fold(p1) == b.required);
    assert(after_key_scan(p1, "content:"@) == (Seq::<char>::empty(), false));
    if b.content_type.len() > 0 {
        lemma_required_push(p1, c2);
        lemma_required_push(p1.push(c2), c3);
        lemma_after_key_push(p1, c2, "content:"@);
        lemma_after_key_push(p1.push(c2), c3, "content:"@);
        assert(body_core(b) == p1.push(c2).push(c3));
        assert(required_fold(body_core(b)) == b.required);
        assert(after_key_scan(body_core(b), "content:"@).0 =~= with_newline(c3));
        lemma_content_key(b.content_type);
    } else {
        assert(body_core(b) == p1);
        assert(lines_of(Seq::<char>::empty()) =~= e) by {
            assert(crate::text::line_scan(Seq::<char>::empty()) == (e, Seq::<char>::empty()));
        }
        assert(first_yml_key_spec(Seq::<char>::empty()) =~= b.content_type);
    }
    let got = body_from_yml(lines_text(body_core(b)));
    assert(got.required == b.required);
    assert(got.content_type == b.content_type);
}

// ---------------------------------------------------------------------------
// Methods: reading line by line
// ---------------------------------------------------------------------------
/// The HTTP method names hold no `:`.
proof fn lemma_http_methods_no_colon()
    ensures
        forall|i: int| 0 <= i < http_methods().len() ==> no_colon(#[trigger] http_methods()[i]),
{
    reveal_strlit("get");
    reveal_strlit("post");
    reveal_strlit("put");
    reveal_strlit("delete");
    reveal_strlit("head");
    reveal_strlit("patch");
    reveal_strlit("trace");
    reveal_strlit("options");
    reveal_strlit("connect");
}

/// A search for the method of the line `m + ":"` finds `m` itself, when no
/// method name searched holds a `:`.
proof fn lemma_first_method_key_own(m: Seq<char>, ms: Seq<Seq<char>>)
    requires
        ms.contains(m),
        forall|i: int| 0 <= i < ms.len() ==> no_colon(#[trigger] ms[i]),
    ensures
        first_method_key(name_line(m), ms) == Some(m),
    decreases ms.len(),
{
    let l = name_line(m);
    if ms[0] == m {
        assert(l.subrange(0, (ms[0] + seq![':']).len() as int) =~= ms[0] + seq![':']);
    } else {
        let k: int = ms[0].len() as int;
        assert(no_colon(ms[0]));
        assert(no_colon(m)) by {
            let j = choose|j: int| 0 <= j < ms.len() && ms[j] == m;
            assert(no_colon(ms[j]));
        }
        if has_prefix(l, ms[0] + seq![':']) {
            assert(l.subrange(0, k + 1)[k] == ':');
            if k < m.len() {
                assert(l[k] == m[k]);
            } else {
                assert(k == m.len());
                assert(ms[0] =~= m) by {
                    assert forall|j: int| 0 <= j < k implies ms[0][j] == m[j] by {
                        assert(l.subrange(0, k + 1)[j] == (ms[0] + seq![':'])[j]);
                        assert(l[j] == m[j]);
                    }
                }
            }
        }
        let rest = ms.drop_first();
        assert(rest.contains(m)) by {
            let j = choose|j: int| 0 <= j < ms.len() && ms[j] == m;
            assert(j > 0);
            assert(rest[j - 1] == m);
        }
        assert forall|i: int| 0 <= i < rest.len() implies no_colon(#[trigger] rest[i]) by {
            assert(rest[i] == ms[i + 1]);
        }
        lemma_first_method_key_own(m, rest);
    }
}

/// What the readers need to know of the line `m + ":"` of an HTTP method `m`.
proof fn lemma_method_name_line(m: Seq<char>)
    requires
        http_methods().contains(m),
    ensures
        first_method_key(name_line(m), http_methods()) == Some(m),
        is_method_line(name_line(m)),
        m.len() > 0,
        no_colon(m),
        name_line(m)[0] != ' ',
        name_line(m)[0] != '/',
        !quoted_status(name_line(m)),
        !has_prefix(name_line(m), "headers:"@),
        !has_prefix(name_line(m), "requestBody"@),
        !has_prefix(name_line(m), "responses:"@),
        !has_prefix(name_line(m), "summary:"@),
        !has_prefix(name_line(m), "description"@),
        is_line_value(name_line(m)),
{
    lemma_http_methods_no_colon();
    lemma_first_method_key_own(m, http_methods());
    reveal_strlit("get");
    reveal_strlit("post");
    reveal_strlit("put");
    reveal_strlit("delete");
    reveal_strlit("head");
    reveal_strlit("patch");
    reveal_strlit("trace");
    reveal_strlit("options");
    reveal_strlit("connect");
    reveal_strlit("headers:");
    reveal_strlit("requestBody");
    reveal_strlit("responses:");
    reveal_strlit("summary:");
    reveal_strlit("description");
    let j = choose|j: int| 0 <= j < http_methods().len() && http_methods()[j] == m;
    let l = name_line(m);
    assert(m.len() > 0 && m.len() <= 7);
    assert(l.len() <= 8);
    assert(!has_prefix(l, "requestBody"@));
    assert(!has_prefix(l, "description"@));
    if has_prefix(l, "headers:"@) {
        assert(l.subrange(0, 8) =~= "headers:"@);
        assert(l.len() == 8);
        assert(l[7] == ':');
        assert(m.len() == 7);
        assert(m[0] == 'h');
        assert(false);
    }
    if has_prefix(l, "summary:"@) {
        assert(l.subrange(0, 8) =~= "summary:"@);
        assert(m[0] == 's');
        assert(false);
    }
    if has_prefix(l, "responses:"@) {
        assert(l.subrange(0, 10) =~= "responses:"@);
    }
    assert(is_line_value(l)) by {
        assert forall|i: int| 0 <= i < l.len() implies l[i] != '\n' by {
            if i < m.len() {
                assert(l[i] == m[i]);
            }
        }
    }
}

/// The reading state after the lines `ls`, read from the state `st`.
pub open spec fn method_run(st: MethodScan, ls: Seq<Seq<char>>) -> MethodScan
    decreases ls.len(),
{
    if ls.len() == 0 {
        st
    } else {
        method_step(method_run(st, ls.drop_last()), ls.last())
    }
}

proof fn lemma_method_fold_run(ls: Seq<Seq<char>>)
    ensures
        method_fold(ls) == method_run(method_scan_start(), ls),
    decreases ls.len(),
{
    if ls.len() > 0 {
        lemma_method_fold_run(ls.drop_last());
    }
}

proof fn lemma_method_run_concat(st: MethodScan, a: Seq<Seq<char>>, b: Seq<Seq<char>>)
    ensures
        method_run(st, a + b) == method_run(method_run(st, a), b),
    decreases b.len(),
{
    if b.len() == 0 {
        assert(a + b =~= a);
    } else {
        lemma_method_run_concat(st, a, b.drop_last());
        assert((a + b).drop_last() =~= a + b.drop_last());
        assert((a + b).last() == b.last());
    }
}

proof fn lemma_method_run_one(st: MethodScan, l: Seq<char>)
    ensures
        method_run(st, seq![l]) == method_step(st, l),
{
    assert(seq![l].drop_last() =~= Seq::<Seq<char>>::empty());
    assert(method_run(st, Seq::<Seq<char>>::empty()) == st);
    assert(seq![l].last() == l);
}

/// A line that switches no section of a method and is no status line.
pub open spec fn inert(l: Seq<char>) -> bool {
    &&& !has_prefix(l, "headers:"@)
    &&& !has_prefix(l, "requestBody"@)
    &&& !has_prefix(l, "responses:"@)
    &&& !quoted_status(l)
}

/// A line that starts with a letter other than `h`, `r` and `"` is inert.
proof fn lemma_inert_by_first(l: Seq<char>)
    requires
        l.len() > 0,
        l[0] != 'h',
        l[0] != 'r',
        l[0] != '"',
    ensures
        inert(l),
{
    reveal_strlit("headers:");
    reveal_strlit("requestBody");
    reveal_strlit("responses:");
    lemma_not_prefix(l, "headers:"@);
    lemma_not_prefix(l, "requestBody"@);
    lemma_not_prefix(l, "responses:"@);
}

/// The state of reading the lines before the headers, body and responses.
pub open spec fn in_preamble(st: MethodScan) -> bool {
    &&& st.method.len() > 0
    &&& !st.in_responses
    &&& !st.reading_body
    &&& !st.reading_headers
}

/// A preamble line sets the summary or the description it names, and is
/// collected into the first response block.
proof fn lemma_step_preamble(st: MethodScan, l: Seq<char>)
    requires
        in_preamble(st),
        inert(l),
    ensures
        method_step(st, l) == (MethodScan {
            summary: if has_prefix(l, "summary:"@) {
                yml_value(l)
            } else {
                st.summary
            },
            description: if has_prefix(l, "description"@) {
                yml_value(l)
            } else {
                st.description
            },
            res_str: st.res_str + with_newline(l),
            ..st
        }),
{
}

/// The state of reading the headers of a method.
pub open spec fn in_headers(st: MethodScan) -> bool {
    &&& st.method.len() > 0
    &&& !st.in_responses
    &&& !st.reading_body
    &&& st.reading_headers
}

/// A header line opens a new header block or joins the current one.
proof fn lemma_step_header(st: MethodScan, l: Seq<char>)
    requires
        in_headers(st),
        inert(l),
        trim_white_space(l) == l,
        l.len() > 0,
    ensures
        method_step(st, l) == (if is_new_header_line(l) {
            MethodScan {
                header_list: flushed(st.header_list, st.header_block),
                header_block: with_newline(l),
                ..st
            }
        } else {
            MethodScan { header_block: st.header_block + with_newline(l), ..st }
        }),
{
    if is_new_header_line(l) {
        assert(Seq::<char>::empty() + with_newline(l) =~= with_newline(l));
    }
}

/// The state of reading a request body.
pub open spec fn in_body(st: MethodScan) -> bool {
    &&& st.method.len() > 0
    &&& !st.in_responses
    &&& st.reading_body
    &&& !st.reading_headers
}

/// A body line is collected into the body.
proof fn lemma_step_body(st: MethodScan, l: Seq<char>)
    requires
        in_body(st),
        !has_prefix(l, "headers:"@),
        !has_prefix(l, "responses:"@),
        !quoted_status(l),
        !has_prefix(l, "summary:"@),
        !has_prefix(l, "description"@),
    ensures
        method_step(st, l) == (MethodScan { body_str: st.body_str + with_newline(l), ..st }),
{
}

/// The state of reading the responses of a method.
pub open spec fn in_responses(st: MethodScan) -> bool {
    &&& st.method.len() > 0
    &&& st.in_responses
    &&& !st.reading_body
    &&& !st.reading_headers
}

/// A response line starts a new response block when it is a status line, and
/// is collected into the current block.
proof fn lemma_step_response(st: MethodScan, l: Seq<char>)
    requires
        in_responses(st),
        !has_prefix(l, "headers:"@),
        !has_prefix(l, "requestBody"@),
    ensures
        method_step(st, l) == (if quoted_status(l) && st.res_str.len() > 0 {
            MethodScan {
                res_list: st.res_list.push(st.res_str),
                res_str: with_newline(l),
                ..st
            }
        } else {
            MethodScan { res_str: st.res_str + with_newline(l), ..st }
        }),
{
    if quoted_status(l) && st.res_str.len() > 0 {
        assert(Seq::<char>::empty() + with_newline(l) =~= with_newline(l));
    }
}

proof fn lemma_method_run_push(st: MethodScan, p: Seq<Seq<char>>, l: Seq<char>)
    ensures
        method_run(st, p.push(l)) == method_step(method_run(st, p), l),
{
    assert(p.push(l).drop_last() =~= p);
    assert(p.push(l).last() == l);
}

/// The lines of runs of lines, one run after another.
pub open spec fn flat(q: Seq<Seq<Seq<char>>>) -> Seq<Seq<char>>
    decreases q.len(),
{
    if q.len() == 0 {
        seq![]
    } else {
        flat(q.drop_last()) + q.last()
    }
}

proof fn lemma_flat_push(q: Seq<Seq<Seq<char>>>, b: Seq<Seq<char>>)
    ensures
        flat(q.push(b)) == flat(q) + b,
{
    assert(q.push(b).drop_last() =~= q);
    assert(q.push(b).last() == b);
}

/// The first lines of a method: its name, summary and description.
pub open spec fn preamble_core(m: MethodModel) -> Seq<Seq<char>> {
    let p0 = seq![name_line(m.method)];
    let p1 = if m.summary.len() > 0 {
        p0.push(kv("summary:"@, m.summary))
    } else {
        p0
    };
    if m.description.len() > 0 {
        p1.push(kv("description:"@, m.description))
    } else {
        p1
    }
}

/// The reading state after the first lines of a method.
pub open spec fn after_preamble(m: MethodModel) -> MethodScan {
    MethodScan {
        method: m.method,
        summary: m.summary,
        description: m.description,
        res_list: seq![],
        res_str: lines_text(preamble_core(m)),
        in_responses: false,
        reading_body: false,
        body_str: seq![],
        reading_headers: false,
        header_list: seq![],
        header_block: seq![],
    }
}

#[verifier::spinoff_prover]
#[verifier::rlimit(40)]
proof fn lemma_run_preamble(m: MethodModel)
    requires
        http_methods().contains(m.method),
    ensures
        method_run(method_scan_start(), preamble_core(m)) == after_preamble(m),
        lines_text(preamble_core(m)).len() > 0,
{
    reveal_strlit("summary:");
    reveal_strlit("description:");
    reveal_strlit("description");
    let e = Seq::<Seq<char>>::empty();
    let n = name_line(m.method);
    let cs = kv("summary:"@, m.summary);
    let cd = kv("description:"@, m.description);
    lemma_method_name_line(m.method);
    let st0 = MethodScan { method: m.method, ..method_scan_start() };
    assert(scan_method_name(method_scan_start(), n) == st0);
    assert(scan_method_name(st0, n) == st0);
    assert(inert(n));
    lemma_step_preamble(st0, n);
    lemma_method_run_one(method_scan_start(), n);
    lemma_lines_text_push(e, n);
    assert(seq![n] =~= e.push(n));
    assert(lines_text(e) == Seq::<char>::empty());
    let s0 = method_run(method_scan_start(), seq![n]);
    assert(s0.res_str =~= lines_text(seq![n]));
    assert(s0.summary =~= Seq::<char>::empty() && s0.description =~= Seq::<char>::empty());
    assert(s0.method == m.method && in_preamble(s0));
    let p1 = if m.summary.len() > 0 { seq![n].push(cs) } else { seq![n] };
    if m.summary.len() > 0 {
        lemma_kv("summary:"@, m.summary);
        lemma_inert_by_first(cs);
        lemma_not_prefix(cs, "description"@);
        lemma_step_preamble(s0, cs);
        lemma_method_run_push(method_scan_start(), seq![n], cs);
        lemma_lines_text_push(seq![n], cs);
    }
    let s1 = method_run(method_scan_start(), p1);
    assert(s1.res_str == lines_text(p1));
    assert(s1.summary =~= m.summary && s1.description =~= Seq::<char>::empty());
    assert(s1.method == m.method && in_preamble(s1));
    let p2 = if m.description.len() > 0 { p1.push(cd) } else { p1 };
    if m.description.len() > 0 {
        lemma_kv("description:"@, m.description);
        lemma_inert_by_first(cd);
        lemma_not_prefix(cd, "summary:"@);
        assert(has_prefix(cd, "description"@)) by {
            assert(cd.subrange(0, 11) =~= "description"@);
        }
        lemma_step_preamble(s1, cd);
        lemma_method_run_push(method_scan_start(), p1, cd);
        lemma_lines_text_push(p1, cd);
    }
    let s2 = method_run(method_scan_start(), p2);
    assert(p2 == preamble_core(m));
    assert(s2.res_str == lines_text(p2));
    assert(s2.summary =~= m.summary && s2.description =~= m.description);
    assert(s2.res_list =~= Seq::<Seq<char>>::empty());
    assert(s2.body_str =~= Seq::<char>::empty());
    assert(s2.header_list =~= Seq::<Seq<char>>::empty());
    assert(s2.header_block =~= Seq::<char>::empty());
    assert(s2 == after_preamble(m));
}

/// The `headers:` line starts the headers.
proof fn lemma_step_headers_key(st: MethodScan)
    requires
        in_preamble(st),
    ensures
        method_step(st, "headers:"@) == (MethodScan { reading_headers: true, ..st }),
{
    reveal_strlit("headers:");
    reveal_strlit("requestBody");
    reveal_strlit("responses:");
    reveal_strlit("summary:");
    reveal_strlit("description");
    let l = "headers:"@;
    assert(has_prefix(l, "headers:"@)) by {
        assert(l.subrange(0, 8) =~= l);
    }
    lemma_not_prefix(l, "responses:"@);
    lemma_not_prefix(l, "requestBody"@);
}

/// Reading the lines of one header.
#[verifier::spinoff_prover]
#[verifier::rlimit(40)]
proof fn lemma_run_header(st: MethodScan, h: HeaderModel)
    requires
        in_headers(st),
        header_ok(h),
    ensures
        method_run(st, header_core(h)) == (MethodScan {
            header_list: flushed(st.header_list, st.header_block),
            header_block: lines_text(header_core(h)),
            ..st
        }),
{
    reveal_strlit("description:");
    reveal_strlit("type:");
    reveal_strlit("example:");
    let e = Seq::<Seq<char>>::empty();
    let n = name_line(h.name);
    let cd = kv("description:"@, h.description);
    let ct = kv("type:"@, h.header_type);
    let ce = kv("example:"@, h.example);
    // the name line
    assert(n.last() == ':');
    if h.name.len() > 0 {
        assert(n[0] == h.name[0]);
    }
    assert(!is_white_space(':'));
    lemma_trim_white_space_noop(n);
    assert(is_new_header_line(n));
    lemma_step_header(st, n);
    lemma_method_run_one(st, n);
    lemma_lines_text_push(e, n);
    assert(seq![n] =~= e.push(n));
    assert(lines_text(e) == Seq::<char>::empty());
    let s0 = method_run(st, seq![n]);
    assert(s0 == MethodScan {
        header_list: flushed(st.header_list, st.header_block),
        header_block: lines_text(seq![n]),
        ..st
    });
    let p1 = if h.description.len() > 0 { seq![n].push(cd) } else { seq![n] };
    if h.description.len() > 0 {
        lemma_header_value_line("description:"@, h.description);
        lemma_inert_by_first(cd);
        lemma_step_header(s0, cd);
        lemma_method_run_push(st, seq![n], cd);
        lemma_lines_text_push(seq![n], cd);
    }
    let s1 = method_run(st, p1);
    assert(s1 == MethodScan { header_block: lines_text(p1), ..s0 });
    let p2 = if h.header_type.len() > 0 { p1.push(ct) } else { p1 };
    if h.header_type.len() > 0 {
        lemma_header_value_line("type:"@, h.header_type);
        lemma_inert_by_first(ct);
        lemma_step_header(s1, ct);
        lemma_method_run_push(st, p1, ct);
        lemma_lines_text_push(p1, ct);
    }
    let s2 = method_run(st, p2);
    assert(s2 == MethodScan { header_block: lines_text(p2), ..s0 });
    let p3 = if h.example.len() > 0 { p2.push(ce) } else { p2 };
    if h.example.len() > 0 {
        lemma_header_value_line("example:"@, h.example);
        lemma_inert_by_first(ce);
        lemma_step_header(s2, ce);
        lemma_method_run_push(st, p2, ce);
        lemma_lines_text_push(p2, ce);
    }
    assert(p3 == header_core(h));
}

/// The lines of headers.
pub open spec fn headers_core(hs: Seq<HeaderModel>) -> Seq<Seq<char>> {
    flat(hs.map_values(|h: HeaderModel| header_core(h)))
}

/// The blocks the reader collects for headers.
pub open spec fn header_texts(hs: Seq<HeaderModel>) -> Seq<Seq<char>> {
    hs.map_values(|h: HeaderModel| lines_text(header_core(h)))
}

proof fn lemma_lines_text_nonempty(q: Seq<Seq<char>>)
    requires
        q.len() > 0,
    ensures
        lines_text(q).len() > 0,
{
    assert(with_newline(q.last()).len() > 0);
}

/// Reading the lines of headers.
proof fn lemma_run_headers(st: MethodScan, hs: Seq<HeaderModel>)
    requires
        in_headers(st),
        st.header_block.len() == 0,
        hs.len() > 0,
        forall|i: int| 0 <= i < hs.len() ==> header_ok(#[trigger] hs[i]),
    ensures
        method_run(st, headers_core(hs)) == (MethodScan {
            header_list: st.header_list + header_texts(hs).drop_last(),
            header_block: header_texts(hs).last(),
            ..st
        }),
    decreases hs.len(),
{
    let h = hs.last();
    let f = |h: HeaderModel| header_core(h);
    let prev = hs.drop_last();
    assert(hs.map_values(f) =~= prev.map_values(f).push(header_core(h)));
    lemma_flat_push(prev.map_values(f), header_core(h));
    assert(headers_core(hs) == headers_core(prev) + header_core(h));
    lemma_method_run_concat(st, headers_core(prev), header_core(h));
    if hs.len() == 1 {
        assert(prev.map_values(f) =~= Seq::<Seq<Seq<char>>>::empty());
        assert(headers_core(prev) =~= Seq::<Seq<char>>::empty());
        assert(method_run(st, headers_core(prev)) == st);
        assert(hs[0] == h);
        lemma_run_header(st, h);
        assert(st.header_list + header_texts(hs).drop_last() =~= st.header_list);
    } else {
        assert forall|i: int| 0 <= i < prev.len() implies header_ok(#[trigger] prev[i]) by {
            assert(prev[i] == hs[i]);
        }
        lemma_run_headers(st, prev);
        let mid = method_run(st, headers_core(prev));
        assert(hs[hs.len() - 1] == h);
        lemma_run_header(mid, h);
        lemma_header_core_lines(prev.last());
        lemma_lines_text_nonempty(header_core(prev.last()));
        assert(header_texts(prev).last() == lines_text(header_core(prev.last())));
        assert(header_texts(hs).drop_last() =~= header_texts(prev));
        assert(st.header_list + header_texts(prev).drop_last() + seq![header_texts(prev).last()]
            =~= st.header_list + header_texts(hs).drop_last());
        assert((st.header_list + header_texts(prev).drop_last()).push(header_texts(prev).last())
            =~= st.header_list + header_texts(hs).drop_last());
    }
}

/// Reading the lines of a request body, from any state before the responses
/// and outside a body.
#[verifier::spinoff_prover]
#[verifier::rlimit(40)]
proof fn lemma_run_body(st: MethodScan, b: RequestBodyModel)
    requires
        st.method.len() > 0,
        !st.in_responses,
        !st.reading_body,
        body_content_type_ok(b.content_type),
    ensures
        method_run(st, body_core(b)) == (MethodScan {
            reading_body: true,
            reading_headers: false,
            header_list: close_headers(st).header_list,
            header_block: close_headers(st).header_block,
            body_str: st.body_str + lines_text(body_core(b)),
            ..st
        }),
{
    reveal_strlit("requestBody:");
    reveal_strlit("requestBody");
    reveal_strlit("headers:");
    reveal_strlit("responses:");
    reveal_strlit("summary:");
    reveal_strlit("description");
    reveal_strlit("required:");
    reveal_strlit("true");
    reveal_strlit("content:");
    let e = Seq::<Seq<char>>::empty();
    let c0 = "requestBody:"@;
    let c1 = kv("required:"@, "true"@);
    let c2 = "content:"@;
    let c3 = content_line(b.content_type);
    // the key line
    lemma_not_prefix(c0, "headers:"@);
    assert(has_prefix(c0, "requestBody"@)) by {
        assert(c0.subrange(0, 11) =~= "requestBody"@);
    }
    lemma_prefix_differs(c0, "responses:"@, 2);
    lemma_not_prefix(c0, "summary:"@);
    lemma_not_prefix(c0, "description"@);
    lemma_method_run_one(st, c0);
    lemma_lines_text_push(e, c0);
    assert(seq![c0] =~= e.push(c0));
    assert(lines_text(e) == Seq::<char>::empty());
    let s0 = method_run(st, seq![c0]);
    assert(s0 == MethodScan {
        reading_body: true,
        reading_headers: false,
        header_list: close_headers(st).header_list,
        header_block: close_headers(st).header_block,
        body_str: st.body_str + lines_text(seq![c0]),
        ..st
    });
    assert(in_body(s0));
    let p1 = if b.required { seq![c0].push(c1) } else { seq![c0] };
    if b.required {
        lemma_kv("required:"@, "true"@);
        lemma_not_prefix(c1, "headers:"@);
        lemma_prefix_differs(c1, "responses:"@, 2);
        lemma_not_prefix(c1, "summary:"@);
        lemma_not_prefix(c1, "description"@);
        lemma_step_body(s0, c1);
        lemma_method_run_push(st, seq![c0], c1);
        lemma_lines_text_push(seq![c0], c1);
        assert(st.body_str + lines_text(seq![c0]) + with_newline(c1) =~= st.body_str + lines_text(
            p1,
        ));
    }
    let s1 = method_run(st, p1);
    assert(s1 == MethodScan { body_str: st.body_str + lines_text(p1), ..s0 });
    if b.content_type.len() > 0 {
        lemma_not_prefix(c2, "headers:"@);
        lemma_not_prefix(c2, "responses:"@);
        lemma_not_prefix(c2, "summary:"@);
        lemma_not_prefix(c2, "description"@);
        lemma_step_body(s1, c2);
        lemma_method_run_push(st, p1, c2);
        lemma_lines_text_push(p1, c2);
        assert(st.body_str + lines_text(p1) + with_newline(c2) =~= st.body_str + lines_text(
            p1.push(c2),
        ));
        let s2 = method_run(st, p1.push(c2));
        lemma_step_body(s2, c3);
        lemma_method_run_push(st, p1.push(c2), c3);
        lemma_lines_text_push(p1.push(c2), c3);
        assert(st.body_str + lines_text(p1.push(c2)) + with_newline(c3) =~= st.body_str
            + lines_text(p1.push(c2).push(c3)));
        assert(body_core(b) == p1.push(c2).push(c3));
    } else {
        assert(body_core(b) == p1);
    }
}

/// The `responses:` line closes the headers or the body and starts the
/// responses; it is collected into the first response block.
proof fn lemma_step_responses_key(st: MethodScan)
    requires
        st.method.len() > 0,
        !st.in_responses,
    ensures
        method_step(st, "responses:"@) == (MethodScan {
            in_responses: true,
            reading_body: false,
            reading_headers: false,
            header_list: close_headers(st).header_list,
            header_block: close_headers(st).header_block,
            res_str: st.res_str + with_newline("responses:"@),
            ..st
        }),
{
    reveal_strlit("headers:");
    reveal_strlit("requestBody");
    reveal_strlit("responses:");
    let l = "responses:"@;
    lemma_not_prefix(l, "headers:"@);
    lemma_prefix_differs(l, "requestBody"@, 2);
    assert(has_prefix(l, "responses:"@)) by {
        assert(l.subrange(0, 10) =~= l);
    }
}

/// Reading the lines of one response.
#[verifier::spinoff_prover]
#[verifier::rlimit(40)]
proof fn lemma_run_response(st: MethodScan, r: ResponseModel)
    requires
        in_responses(st),
        st.res_str.len() > 0,
        response_ok(r),
    ensures
        method_run(st, response_core(r)) == (MethodScan {
            res_list: st.res_list.push(st.res_str),
            res_str: lines_text(response_core(r)),
            ..st
        }),
{
    reveal_strlit("description:");
    reveal_strlit("content:");
    reveal_strlit("headers:");
    reveal_strlit("requestBody");
    let e = Seq::<Seq<char>>::empty();
    let c0 = code_line(r.code);
    let c1 = kv("description:"@, r.description);
    let c2 = "content:"@;
    let c3 = content_line(r.content_type);
    lemma_not_prefix(c0, "headers:"@);
    lemma_not_prefix(c0, "requestBody"@);
    assert(quoted_status(c0));
    lemma_step_response(st, c0);
    lemma_method_run_one(st, c0);
    lemma_lines_text_push(e, c0);
    assert(seq![c0] =~= e.push(c0));
    assert(lines_text(e) == Seq::<char>::empty());
    let s0 = method_run(st, seq![c0]);
    assert(s0 == MethodScan {
        res_list: st.res_list.push(st.res_str),
        res_str: lines_text(seq![c0]),
        ..st
    });
    let p1 = if r.description.len() > 0 { seq![c0].push(c1) } else { seq![c0] };
    if r.description.len() > 0 {
        lemma_kv("description:"@, r.description);
        lemma_not_prefix(c1, "headers:"@);
        lemma_not_prefix(c1, "requestBody"@);
        lemma_step_response(s0, c1);
        lemma_method_run_push(st, seq![c0], c1);
        lemma_lines_text_push(seq![c0], c1);
    }
    let s1 = method_run(st, p1);
    assert(s1 == MethodScan { res_str: lines_text(p1), ..s0 });
    if r.content_type.len() > 0 {
        lemma_not_prefix(c2, "headers:"@);
        lemma_not_prefix(c2, "requestBody"@);
        lemma_step_response(s1, c2);
        lemma_method_run_push(st, p1, c2);
        lemma_lines_text_push(p1, c2);
        let s2 = method_run(st, p1.push(c2));
        lemma_step_response(s2, c3);
        lemma_method_run_push(st, p1.push(c2), c3);
        lemma_lines_text_push(p1.push(c2), c3);
        assert(response_core(r) == p1.push(c2).push(c3));
    } else {
        assert(response_core(r) == p1);
    }
}

/// The lines of responses.
pub open spec fn responses_core(rs: Seq<ResponseModel>) -> Seq<Seq<char>> {
    flat(rs.map_values(|r: ResponseModel| response_core(r)))
}

/// The blocks the reader collects for responses.
pub open spec fn response_texts(rs: Seq<ResponseModel>) -> Seq<Seq<char>> {
    rs.map_values(|r: ResponseModel| lines_text(response_core(r)))
}

/// Reading the lines of responses.
proof fn lemma_run_responses(st: MethodScan, rs: Seq<ResponseModel>)
    requires
        in_responses(st),
        st.res_str.len() > 0,
        rs.len() > 0,
        forall|i: int| 0 <= i < rs.len() ==> response_ok(#[trigger] rs[i]),
    ensures
        method_run(st, responses_core(rs)) == (MethodScan {
            res_list: st.res_list.push(st.res_str) + response_texts(rs).drop_last(),
            res_str: response_texts(rs).last(),
            ..st
        }),
    decreases rs.len(),
{
    let r = rs.last();
    let f = |r: ResponseModel| response_core(r);
    let prev = rs.drop_last();
    assert(rs.map_values(f) =~= prev.map_values(f).push(response_core(r)));
    lemma_flat_push(prev.map_values(f), response_core(r));
    assert(responses_core(rs) == responses_core(prev) + response_core(r));
    lemma_method_run_concat(st, responses_core(prev), response_core(r));
    assert(rs[rs.len() - 1] == r);
    if rs.len() == 1 {
        assert(prev.map_values(f) =~= Seq::<Seq<Seq<char>>>::empty());
        assert(responses_core(prev) =~= Seq::<Seq<char>>::empty());
        assert(method_run(st, responses_core(prev)) == st);
        lemma_run_response(st, r);
        assert(st.res_list.push(st.res_str) + response_texts(rs).drop_last() =~= st.res_list.push(
            st.res_str,
        ));
    } else {
        assert forall|i: int| 0 <= i < prev.len() implies response_ok(#[trigger] prev[i]) by {
            assert(prev[i] == rs[i]);
        }
        lemma_run_responses(st, prev);
        let mid = method_run(st, responses_core(prev));
        lemma_response_core_lines(prev.last());
        lemma_lines_text_nonempty(response_core(prev.last()));
        assert(response_texts(prev).last() == lines_text(response_core(prev.last())));
        lemma_run_response(mid, r);
        assert(response_texts(rs).drop_last() =~= response_texts(prev));
        assert((st.res_list.push(st.res_str) + response_texts(prev).drop_last()).push(
            response_texts(prev).last(),
        ) =~= st.res_list.push(st.res_str) + response_texts(rs).drop_last());
    }
}

// ---------------------------------------------------------------------------
// Methods: the whole block
// ---------------------------------------------------------------------------
/// The lines of a method once their indents are dropped, in runs: its name,
/// summary and description lines, its headers, request body and responses.
pub open spec fn method_core_blocks(m: MethodModel) -> Seq<Seq<Seq<char>>> {
    let p0 = seq![seq![name_line(m.method)]];
    let p1 = if m.summary.len() > 0 {
        p0.push(seq![kv("summary:"@, m.summary)])
    } else {
        p0
    };
    let p2 = if m.description.len() > 0 {
        p1.push(seq![kv("description:"@, m.description)])
    } else {
        p1
    };
    let p3 = if m.header.len() > 0 {
        p2.push(seq!["headers:"@]).push(headers_core(m.header))
    } else {
        p2
    };
    let p4 = if !body_is_empty(m.body) {
        p3.push(body_core(m.body))
    } else {
        p3
    };
    if m.responses.len() > 0 {
        p4.push(seq!["responses:"@]).push(responses_core(m.responses))
    } else {
        p4
    }
}

/// The lines of a method once their indents are dropped.
pub open spec fn method_core(m: MethodModel) -> Seq<Seq<char>> {
    flat(method_core_blocks(m))
}

/// A method that reads back as itself once written: an HTTP method name,
/// summary and description that can stand on a line, and headers, request
/// body and responses that read back as themselves.
pub open spec fn method_ok(m: MethodModel) -> bool {
    &&& http_methods().contains(m.method)
    &&& is_line_value(m.summary)
    &&& is_line_value(m.description)
    &&& forall|i: int| 0 <= i < m.header.len() ==> header_ok(#[trigger] m.header[i])
    &&& body_content_type_ok(m.body.content_type)
    &&& forall|i: int| 0 <= i < m.responses.len() ==> response_ok(#[trigger] m.responses[i])
}

/// The reading state after the headers of a method.
pub open spec fn after_headers(m: MethodModel) -> MethodScan {
    if m.header.len() > 0 {
        MethodScan {
            reading_headers: true,
            header_list: header_texts(m.header).drop_last(),
            header_block: header_texts(m.header).last(),
            ..after_preamble(m)
        }
    } else {
        after_preamble(m)
    }
}

/// The reading state after the request body of a method.
pub open spec fn after_body(m: MethodModel) -> MethodScan {
    let st = after_headers(m);
    if !body_is_empty(m.body) {
        MethodScan {
            reading_body: true,
            reading_headers: false,
            header_list: close_headers(st).header_list,
            header_block: close_headers(st).header_block,
            body_str: lines_text(body_core(m.body)),
            ..st
        }
    } else {
        st
    }
}

/// The reading state after the `responses:` line of a method.
pub open spec fn at_responses(m: MethodModel) -> MethodScan {
    let st = after_body(m);
    MethodScan {
        in_responses: true,
        reading_body: false,
        reading_headers: false,
        header_list: close_headers(st).header_list,
        header_block: close_headers(st).header_block,
        res_str: st.res_str + with_newline("responses:"@),
        ..st
    }
}

/// The reading state after all lines of a method.
pub open spec fn after_method(m: MethodModel) -> MethodScan {
    if m.responses.len() > 0 {
        let st = at_responses(m);
        MethodScan {
            res_list: st.res_list.push(st.res_str) + response_texts(m.responses).drop_last(),
            res_str: response_texts(m.responses).last(),
            ..st
        }
    } else {
        after_body(m)
    }
}

/// Reading the lines of a method, phase by phase.
#[verifier::spinoff_prover]
#[verifier::rlimit(40)]
proof fn lemma_run_method(m: MethodModel)
    requires
        method_ok(m),
    ensures
        method_run(method_scan_start(), method_core(m)) == after_method(m),
{
    let start = method_scan_start();
    let n = name_line(m.method);
    let b0 = seq![seq![n]];
    let b1 = if m.summary.len() > 0 { b0.push(seq![kv("summary:"@, m.summary)]) } else { b0 };
    let b2 = if m.description.len() > 0 {
        b1.push(seq![kv("description:"@, m.description)])
    } else {
        b1
    };
    // the preamble
    lemma_method_name_line(m.method);
    assert(b0.drop_last() =~= Seq::<Seq<Seq<char>>>::empty());
    assert(flat(Seq::<Seq<Seq<char>>>::empty()) =~= Seq::<Seq<char>>::empty());
    assert(b0.last() == seq![n]);
    assert(flat(b0) =~= seq![n]);
    if m.summary.len() > 0 {
        lemma_flat_push(b0, seq![kv("summary:"@, m.summary)]);
    }
    assert(flat(b1) =~= (if m.summary.len() > 0 { seq![n].push(kv("summary:"@, m.summary)) } else { seq![n] }));
    if m.description.len() > 0 {
        lemma_flat_push(b1, seq![kv("description:"@, m.description)]);
    }
    assert(flat(b2) =~= preamble_core(m));
    lemma_run_preamble(m);
    let sa = after_preamble(m);
    assert(method_run(start, flat(b2)) == sa);
    // the headers
    let b3 = if m.header.len() > 0 {
        b2.push(seq!["headers:"@]).push(headers_core(m.header))
    } else {
        b2
    };
    if m.header.len() > 0 {
        lemma_flat_push(b2, seq!["headers:"@]);
        lemma_flat_push(b2.push(seq!["headers:"@]), headers_core(m.header));
        lemma_method_run_concat(start, flat(b2), seq!["headers:"@]);
        lemma_method_run_one(sa, "headers:"@);
        lemma_step_headers_key(sa);
        let sh = MethodScan { reading_headers: true, ..sa };
        lemma_method_run_concat(start, flat(b2) + seq!["headers:"@], headers_core(m.header));
        lemma_run_headers(sh, m.header);
        assert(Seq::<Seq<char>>::empty() + header_texts(m.header).drop_last() =~= header_texts(
            m.header,
        ).drop_last());
    }
    let sb = after_headers(m);
    assert(method_run(start, flat(b3)) == sb);
    // the request body
    let b4 = if !body_is_empty(m.body) { b3.push(body_core(m.body)) } else { b3 };
    if !body_is_empty(m.body) {
        lemma_flat_push(b3, body_core(m.body));
        lemma_method_run_concat(start, flat(b3), body_core(m.body));
        lemma_run_body(sb, m.body);
        assert(Seq::<char>::empty() + lines_text(body_core(m.body)) =~= lines_text(
            body_core(m.body),
        ));
    }
    let sc = after_body(m);
    assert(method_run(start, flat(b4)) == sc);
    // the responses
    assert(method_core_blocks(m) == (if m.responses.len() > 0 {
        b4.push(seq!["responses:"@]).push(responses_core(m.responses))
    } else {
        b4
    }));
    if m.responses.len() > 0 {
        lemma_flat_push(b4, seq!["responses:"@]);
        lemma_flat_push(b4.push(seq!["responses:"@]), responses_core(m.responses));
        lemma_method_run_concat(start, flat(b4), seq!["responses:"@]);
        lemma_method_run_one(sc, "responses:"@);
        lemma_step_responses_key(sc);
        let sr = at_responses(m);
        assert(method_run(start, flat(b4) + seq!["responses:"@]) == sr);
        lemma_method_run_concat(start, flat(b4) + seq!["responses:"@], responses_core(m.responses));
        assert(sr.res_str.len() > 0);
        lemma_run_responses(sr, m.responses);
    }
}

proof fn lemma_flat_line_values_push(q: Seq<Seq<Seq<char>>>, b: Seq<Seq<char>>)
    requires
        all_line_values(flat(q)),
        all_line_values(b),
    ensures
        all_line_values(flat(q.push(b))),
{
    lemma_flat_push(q, b);
    lemma_all_line_values_concat(flat(q), b);
}

/// The lines of headers hold no line break and end with no carriage return.
proof fn lemma_headers_core_lines(hs: Seq<HeaderModel>)
    requires
        forall|i: int| 0 <= i < hs.len() ==> header_ok(#[trigger] hs[i]),
    ensures
        all_line_values(headers_core(hs)),
    decreases hs.len(),
{
    let f = |h: HeaderModel| header_core(h);
    if hs.len() == 0 {
        assert(hs.map_values(f) =~= Seq::<Seq<Seq<char>>>::empty());
    } else {
        let prev = hs.drop_last();
        assert forall|i: int| 0 <= i < prev.len() implies header_ok(#[trigger] prev[i]) by {
            assert(prev[i] == hs[i]);
        }
        lemma_headers_core_lines(prev);
        assert(hs.map_values(f) =~= prev.map_values(f).push(header_core(hs.last())));
        assert(header_ok(hs[hs.len() - 1]));
        lemma_header_core_lines(hs.last());
        lemma_flat_line_values_push(prev.map_values(f), header_core(hs.last()));
    }
}

/// The lines of responses hold no line break and end with no carriage return.
proof fn lemma_responses_core_lines(rs: Seq<ResponseModel>)
    requires
        forall|i: int| 0 <= i < rs.len() ==> response_ok(#[trigger] rs[i]),
    ensures
        all_line_values(responses_core(rs)),
    decreases rs.len(),
{
    let f = |r: ResponseModel| response_core(r);
    if rs.len() == 0 {
        assert(rs.map_values(f) =~= Seq::<Seq<Seq<char>>>::empty());
    } else {
        let prev = rs.drop_last();
        assert forall|i: int| 0 <= i < prev.len() implies response_ok(#[trigger] prev[i]) by {
            assert(prev[i] == rs[i]);
        }
        lemma_responses_core_lines(prev);
        assert(rs.map_values(f) =~= prev.map_values(f).push(response_core(rs.last())));
        assert(response_ok(rs[rs.len() - 1]));
        lemma_response_core_lines(rs.last());
        lemma_flat_line_values_push(prev.map_values(f), response_core(rs.last()));
    }
}

/// The lines of a method hold no line break and end with no carriage return;
/// the first is its name line.
#[verifier::spinoff_prover]
#[verifier::rlimit(40)]
proof fn lemma_method_core_lines(m: MethodModel)
    requires
        method_ok(m),
    ensures
        all_line_values(method_core(m)),
        method_core(m).len() > 0,
        method_core(m)[0] == name_line(m.method),
{
    reveal_strlit("summary:");
    reveal_strlit("description:");
    reveal_strlit("headers:");
    reveal_strlit("responses:");
    let n = name_line(m.method);
    lemma_method_name_line(m.method);
    let b0 = seq![seq![n]];
    assert(b0.drop_last() =~= Seq::<Seq<Seq<char>>>::empty());
    assert(flat(Seq::<Seq<Seq<char>>>::empty()) =~= Seq::<Seq<char>>::empty());
    assert(b0.last() == seq![n]);
    assert(flat(b0) =~= seq![n]);
    assert(all_line_values(flat(b0)));
    let b1 = if m.summary.len() > 0 { b0.push(seq![kv("summary:"@, m.summary)]) } else { b0 };
    if m.summary.len() > 0 {
        lemma_kv("summary:"@, m.summary);
        lemma_flat_line_values_push(b0, seq![kv("summary:"@, m.summary)]);
        lemma_flat_push(b0, seq![kv("summary:"@, m.summary)]);
    }
    let b2 = if m.description.len() > 0 {
        b1.push(seq![kv("description:"@, m.description)])
    } else {
        b1
    };
    if m.description.len() > 0 {
        lemma_kv("description:"@, m.description);
        lemma_flat_line_values_push(b1, seq![kv("description:"@, m.description)]);
        lemma_flat_push(b1, seq![kv("description:"@, m.description)]);
    }
    let b3 = if m.header.len() > 0 {
        b2.push(seq!["headers:"@]).push(headers_core(m.header))
    } else {
        b2
    };
    if m.header.len() > 0 {
        assert(is_line_value("headers:"@));
        lemma_flat_line_values_push(b2, seq!["headers:"@]);
        lemma_headers_core_lines(m.header);
        lemma_flat_line_values_push(b2.push(seq!["headers:"@]), headers_core(m.header));
        lemma_flat_push(b2, seq!["headers:"@]);
        lemma_flat_push(b2.push(seq!["headers:"@]), headers_core(m.header));
    }
    let b4 = if !body_is_empty(m.body) { b3.push(body_core(m.body)) } else { b3 };
    if !body_is_empty(m.body) {
        lemma_body_core_lines(m.body);
        lemma_flat_line_values_push(b3, body_core(m.body));
        lemma_flat_push(b3, body_core(m.body));
    }
    if m.responses.len() > 0 {
        assert(is_line_value("responses:"@));
        lemma_flat_line_values_push(b4, seq!["responses:"@]);
        lemma_responses_core_lines(m.responses);
        lemma_flat_line_values_push(b4.push(seq!["responses:"@]), responses_core(m.responses));
        lemma_flat_push(b4, seq!["responses:"@]);
        lemma_flat_push(b4.push(seq!["responses:"@]), responses_core(m.responses));
    }
    assert(flat(b4).len() > 0 && flat(b4)[0] == n);
}

/// Reading the lines of a written method gives the method back.
#[verifier::spinoff_prover]
#[verifier::rlimit(40)]
proof fn lemma_method_read(m: MethodModel)
    requires
        method_ok(m),
    ensures
        method_from_yml(lines_text(method_core(m))) == m,
{
    lemma_method_core_lines(m);
    lemma_lines_of_lines_text(method_core(m));
    lemma_method_fold_run(method_core(m));
    lemma_run_method(m);
    lemma_run_preamble(m);
    let st = after_method(m);
    let got = method_from_yml(lines_text(method_core(m)));
    assert(got.method == m.method && got.summary == m.summary);
    assert(got.description == m.description);
    // the request body
    if !body_is_empty(m.body) {
        assert(st.body_str == lines_text(body_core(m.body)));
        lemma_body_read(m.body);
    } else {
        assert(st.body_str =~= Seq::<char>::empty());
        let e = Seq::<Seq<char>>::empty();
        assert(lines_of(Seq::<char>::empty()) =~= e) by {
            assert(crate::text::line_scan(Seq::<char>::empty()) == (e, Seq::<char>::empty()));
        }
        assert(after_key_scan(e, "content:"@).0 =~= Seq::<char>::empty());
        assert(first_yml_key_spec(Seq::<char>::empty()) =~= m.body.content_type);
    }
    assert(got.body == m.body);
    // the headers
    let ht = header_texts(m.header);
    if m.header.len() > 0 {
        let h = m.header.last();
        assert(header_ok(m.header[m.header.len() - 1]));
        lemma_header_core_lines(h);
        lemma_lines_text_nonempty(header_core(h));
        assert(ht.last().len() > 0);
        assert(ht.drop_last().push(ht.last()) =~= ht);
    } else {
        assert(ht =~= Seq::<Seq<char>>::empty());
    }
    assert(flushed(st.header_list, st.header_block) == ht);
    assert forall|i: int| 0 <= i < m.header.len() implies #[trigger] headers_from_yml(ht)[i]
        == m.header[i] by {
        lemma_header_read(m.header[i]);
    }
    assert(headers_from_yml(ht) =~= m.header);
    // the responses
    let rt = response_texts(m.responses);
    let res_list = if st.res_str.len() > 0 {
        st.res_list.push(st.res_str)
    } else {
        st.res_list
    };
    if m.responses.len() > 0 {
        let r = m.responses.last();
        assert(response_ok(m.responses[m.responses.len() - 1]));
        lemma_response_core_lines(r);
        lemma_lines_text_nonempty(response_core(r));
        assert(rt.last().len() > 0);
        let at = at_responses(m);
        assert(at.res_list =~= Seq::<Seq<char>>::empty());
        assert(res_list =~= seq![at.res_str] + rt);
        assert(skip_first_line(res_list) =~= rt);
    } else {
        assert(st.res_str == lines_text(preamble_core(m)));
        assert(res_list =~= seq![st.res_str]);
        assert(skip_first_line(res_list) =~= rt);
    }
    assert forall|i: int| 0 <= i < m.responses.len() implies #[trigger] responses_from_yml(rt)[i]
        == m.responses[i] by {
        lemma_response_read(m.responses[i]);
    }
    assert(responses_from_yml(rt) =~= m.responses);
}

// ---------------------------------------------------------------------------
// Methods: the written lines
// ---------------------------------------------------------------------------
/// Whether every line of `ls` starts with a space.
pub open spec fn indented(ls: Seq<Seq<char>>) -> bool {
    forall|i: int| 0 <= i < ls.len() ==> (#[trigger] ls[i]).len() > 0 && ls[i][0] == ' '
}

proof fn lemma_indented_concat(a: Seq<Seq<char>>, b: Seq<Seq<char>>)
    requires
        indented(a),
        indented(b),
    ensures
        indented(a + b),
{
    assert forall|i: int| 0 <= i < (a + b).len() implies (#[trigger] (a + b)[i]).len() > 0 && (a
        + b)[i][0] == ' ' by {
        if i < a.len() {
            assert((a + b)[i] == a[i]);
        } else {
            assert((a + b)[i] == b[i - a.len()]);
        }
    }
}

/// A line whose text after its indent can stand on a line can itself.
proof fn lemma_line_value_untrim(l: Seq<char>)
    requires
        is_line_value(trim_start_spaces(l)),
    ensures
        is_line_value(l),
{
    crate::text::lemma_leading_spaces(l);
    let k = leading_spaces(l) as int;
    let t = trim_start_spaces(l);
    assert forall|i: int| 0 <= i < l.len() implies l[i] != '\n' by {
        if i >= k {
            assert(l[i] == t[i - k]);
        }
    }
    if l.len() > 0 {
        if k < l.len() {
            assert(l.last() == t.last());
        } else {
            assert(l.last() == ' ');
        }
    }
}

proof fn lemma_line_values_untrim(ls: Seq<Seq<char>>)
    requires
        all_line_values(trimmed(ls)),
    ensures
        all_line_values(ls),
{
    assert forall|i: int| 0 <= i < ls.len() implies is_line_value(#[trigger] ls[i]) by {
        assert(trimmed(ls)[i] == trim_start_spaces(ls[i]));
        lemma_line_value_untrim(ls[i]);
    }
}

/// One more run of written lines: its lines with their indents dropped, its
/// text, and its indents.
proof fn lemma_block_step(
    b: Seq<Seq<Seq<char>>>,
    c: Seq<Seq<Seq<char>>>,
    p: Seq<Seq<char>>,
    bl: Seq<Seq<char>>,
    cl: Seq<Seq<char>>,
    pl: Seq<char>,
)
    requires
        trimmed(flat(b)) == flat(c),
        lines_text(flat(b)) == lines_text(p),
        indented(flat(b)),
        trimmed(bl) == cl,
        lines_text(bl) == with_newline(pl),
        indented(bl),
    ensures
        trimmed(flat(b.push(bl))) == flat(c.push(cl)),
        lines_text(flat(b.push(bl))) == lines_text(p.push(pl)),
        indented(flat(b.push(bl))),
{
    lemma_flat_push(b, bl);
    lemma_flat_push(c, cl);
    lemma_trimmed_concat(flat(b), bl);
    lemma_lines_text_concat(flat(b), bl);
    lemma_lines_text_push(p, pl);
    lemma_indented_concat(flat(b), bl);
}

/// A run of one written line.
proof fn lemma_one_line_block(l: Seq<char>)
    requires
        l.len() > 0,
        l[0] == ' ',
    ensures
        trimmed(seq![l]) == seq![trim_start_spaces(l)],
        lines_text(seq![l]) == with_newline(l),
        indented(seq![l]),
{
    assert(trimmed(seq![l]) =~= seq![trim_start_spaces(l)]);
    lemma_lines_text_push(Seq::<Seq<char>>::empty(), l);
    assert(seq![l] =~= Seq::<Seq<char>>::empty().push(l));
    assert(lines_text(Seq::<Seq<char>>::empty()) == Seq::<char>::empty());
    assert(Seq::<char>::empty() + with_newline(l) =~= with_newline(l));
}

proof fn lemma_flat_trimmed(q: Seq<Seq<Seq<char>>>)
    ensures
        trimmed(flat(q)) == flat(q.map_values(|l: Seq<Seq<char>>| trimmed(l))),
    decreases q.len(),
{
    let f = |l: Seq<Seq<char>>| trimmed(l);
    if q.len() == 0 {
        assert(q.map_values(f) =~= Seq::<Seq<Seq<char>>>::empty());
        assert(trimmed(flat(q)) =~= Seq::<Seq<char>>::empty());
    } else {
        lemma_flat_trimmed(q.drop_last());
        assert(q.map_values(f) =~= q.drop_last().map_values(f).push(trimmed(q.last())));
        lemma_flat_push(q.drop_last().map_values(f), trimmed(q.last()));
        lemma_trimmed_concat(flat(q.drop_last()), q.last());
    }
}

proof fn lemma_flat_text(q: Seq<Seq<Seq<char>>>)
    requires
        q.len() > 0,
        forall|i: int| 0 <= i < q.len() ==> (#[trigger] q[i]).len() > 0,
    ensures
        lines_text(flat(q)) == join_with(
            q.map_values(|l: Seq<Seq<char>>| join_with(l, seq!['\n'])),
            seq!['\n'],
        ) + seq!['\n'],
    decreases q.len(),
{
    let f = |l: Seq<Seq<char>>| join_with(l, seq!['\n']);
    let j = q.map_values(f);
    assert(q[q.len() - 1].len() > 0);
    lemma_lines_text_joined(q.last());
    if q.len() == 1 {
        assert(q.drop_last() =~= Seq::<Seq<Seq<char>>>::empty());
        assert(flat(Seq::<Seq<Seq<char>>>::empty()) =~= Seq::<Seq<char>>::empty());
        assert(flat(q) =~= q.last());
        assert(j.len() == 1);
        assert(join_with(j, seq!['\n']) == j[0]);
    } else {
        assert forall|i: int| 0 <= i < q.drop_last().len() implies (#[trigger] q.drop_last()[i]).len()
            > 0 by {
            assert(q.drop_last()[i] == q[i]);
        }
        lemma_flat_text(q.drop_last());
        lemma_lines_text_concat(flat(q.drop_last()), q.last());
        assert(j.drop_last() =~= q.drop_last().map_values(f));
        assert(j.last() == join_with(q.last(), seq!['\n']));
        assert(lines_text(flat(q)) =~= join_with(j, seq!['\n']) + seq!['\n']);
    }
}

proof fn lemma_flat_indented(q: Seq<Seq<Seq<char>>>)
    requires
        forall|i: int| 0 <= i < q.len() ==> indented(#[trigger] q[i]),
    ensures
        indented(flat(q)),
    decreases q.len(),
{
    if q.len() > 0 {
        assert forall|i: int| 0 <= i < q.drop_last().len() implies indented(
            #[trigger] q.drop_last()[i],
        ) by {
            assert(q.drop_last()[i] == q[i]);
        }
        lemma_flat_indented(q.drop_last());
        assert(indented(q[q.len() - 1]));
        lemma_indented_concat(flat(q.drop_last()), q.last());
    } else {
        assert(flat(q) =~= Seq::<Seq<char>>::empty());
    }
}

proof fn lemma_header_parts_indented(h: HeaderModel)
    ensures
        indented(header_parts(h)),
        header_parts(h).len() > 0,
{
    reveal_strlit("        ");
    reveal_strlit("          description: ");
    reveal_strlit("          type: ");
    reveal_strlit("          example: ");
}

proof fn lemma_response_parts_indented(r: ResponseModel)
    ensures
        indented(response_parts(r)),
        response_parts(r).len() > 0,
{
    reveal_strlit("        \"");
    reveal_strlit("          description: ");
    reveal_strlit("          content:");
    reveal_strlit("            ");
}

proof fn lemma_body_parts_indented(b: RequestBodyModel)
    ensures
        indented(body_parts(b)),
        body_parts(b).len() > 0,
{
    reveal_strlit("      requestBody:");
    reveal_strlit("        required: true");
    reveal_strlit("        content:");
    reveal_strlit("          ");
}

/// The written lines of headers.
pub open spec fn headers_lines(hs: Seq<HeaderModel>) -> Seq<Seq<char>> {
    flat(hs.map_values(|h: HeaderModel| header_parts(h)))
}

proof fn lemma_headers_lines(hs: Seq<HeaderModel>)
    requires
        hs.len() > 0,
        forall|i: int| 0 <= i < hs.len() ==> header_ok(#[trigger] hs[i]),
    ensures
        trimmed(headers_lines(hs)) == headers_core(hs),
        lines_text(headers_lines(hs)) == with_newline(join_with(headers_text(hs), "\n"@)),
        indented(headers_lines(hs)),
{
    reveal_strlit("\n");
    let q = hs.map_values(|h: HeaderModel| header_parts(h));
    lemma_flat_trimmed(q);
    assert(q.map_values(|l: Seq<Seq<char>>| trimmed(l)) =~= hs.map_values(
        |h: HeaderModel| header_core(h),
    )) by {
        assert forall|i: int| 0 <= i < hs.len() implies trimmed(#[trigger] header_parts(hs[i]))
            == header_core(hs[i]) by {
            assert(header_ok(hs[i]));
            assert(is_white_space(' '));
            lemma_header_parts_trimmed(hs[i]);
        }
    }
    assert forall|i: int| 0 <= i < q.len() implies (#[trigger] q[i]).len() > 0 && indented(q[i]) by {
        lemma_header_parts_indented(hs[i]);
    }
    lemma_flat_text(q);
    assert("\n"@ =~= seq!['\n']);
    assert(q.map_values(|l: Seq<Seq<char>>| join_with(l, seq!['\n'])) =~= headers_text(hs));
    lemma_flat_indented(q);
}

/// The written lines of responses.
pub open spec fn responses_lines(rs: Seq<ResponseModel>) -> Seq<Seq<char>> {
    flat(rs.map_values(|r: ResponseModel| response_parts(r)))
}

proof fn lemma_responses_lines(rs: Seq<ResponseModel>)
    requires
        rs.len() > 0,
        forall|i: int| 0 <= i < rs.len() ==> response_ok(#[trigger] rs[i]),
    ensures
        trimmed(responses_lines(rs)) == responses_core(rs),
        lines_text(responses_lines(rs)) == with_newline(join_with(responses_text(rs), "\n"@)),
        indented(responses_lines(rs)),
{
    reveal_strlit("\n");
    let q = rs.map_values(|r: ResponseModel| response_parts(r));
    lemma_flat_trimmed(q);
    assert(q.map_values(|l: Seq<Seq<char>>| trimmed(l)) =~= rs.map_values(
        |r: ResponseModel| response_core(r),
    )) by {
        assert forall|i: int| 0 <= i < rs.len() implies trimmed(#[trigger] response_parts(rs[i]))
            == response_core(rs[i]) by {
            assert(response_ok(rs[i]));
            lemma_response_parts_trimmed(rs[i]);
        }
    }
    assert forall|i: int| 0 <= i < q.len() implies (#[trigger] q[i]).len() > 0 && indented(q[i]) by {
        lemma_response_parts_indented(rs[i]);
    }
    lemma_flat_text(q);
    assert("\n"@ =~= seq!['\n']);
    assert(q.map_values(|l: Seq<Seq<char>>| join_with(l, seq!['\n'])) =~= responses_text(rs));
    lemma_flat_indented(q);
}

/// The written lines of a method, in runs: its name, summary and description
/// lines, its headers, request body and responses.
pub open spec fn method_line_blocks(m: MethodModel) -> Seq<Seq<Seq<char>>> {
    let p0 = seq![seq!["    "@ + m.method + ":"@]];
    let p1 = if m.summary.len() > 0 {
        p0.push(seq!["      summary: "@ + m.summary])
    } else {
        p0
    };
    let p2 = if m.description.len() > 0 {
        p1.push(seq!["      description: "@ + m.description])
    } else {
        p1
    };
    let p3 = if m.header.len() > 0 {
        p2.push(seq!["      headers:"@]).push(headers_lines(m.header))
    } else {
        p2
    };
    let p4 = if !body_is_empty(m.body) {
        p3.push(body_parts(m.body))
    } else {
        p3
    };
    if m.responses.len() > 0 {
        p4.push(seq!["      responses:"@]).push(responses_lines(m.responses))
    } else {
        p4
    }
}

/// The written lines of a method.
pub open spec fn method_lines(m: MethodModel) -> Seq<Seq<char>> {
    flat(method_line_blocks(m))
}

/// A written line `indent + core`, as a run of one line.
proof fn lemma_indented_line_block(k: nat, core: Seq<char>)
    requires
        k > 0,
        core.len() > 0,
        core[0] != ' ',
    ensures
        trimmed(seq![spaces(k) + core]) == seq![core],
        lines_text(seq![spaces(k) + core]) == with_newline(spaces(k) + core),
        indented(seq![spaces(k) + core]),
{
    lemma_trim_indent(k, core);
    lemma_one_line_block(spaces(k) + core);
}

/// The written lines of a method: with their indents dropped they are its
/// lines as read, their text is the method's text, and each starts with a
/// space.
#[verifier::spinoff_prover]
#[verifier::rlimit(40)]
proof fn lemma_method_lines(m: MethodModel)
    requires
        method_ok(m),
    ensures
        trimmed(method_lines(m)) == method_core(m),
        lines_text(method_lines(m)) == with_newline(method_text(m)),
        indented(method_lines(m)),
        all_line_values(method_lines(m)),
        method_lines(m).len() > 0,
{
    reveal_strlit("    ");
    reveal_strlit(":");
    reveal_strlit("      summary: ");
    reveal_strlit("summary:");
    reveal_strlit("      description: ");
    reveal_strlit("description:");
    reveal_strlit("      headers:");
    reveal_strlit("headers:");
    reveal_strlit("      responses:");
    reveal_strlit("responses:");
    reveal_strlit("\n");
    lemma_method_name_line(m.method);
    let l0 = "    "@ + m.method + ":"@;
    assert(l0 =~= spaces(4) + name_line(m.method));
    lemma_indented_line_block(4, name_line(m.method));
    let b0 = seq![seq![l0]];
    let c0 = seq![seq![name_line(m.method)]];
    let p0 = seq![l0];
    let e3 = Seq::<Seq<Seq<char>>>::empty();
    assert(b0 =~= e3.push(seq![l0]));
    assert(c0 =~= e3.push(seq![name_line(m.method)]));
    lemma_flat_push(e3, seq![l0]);
    lemma_flat_push(e3, seq![name_line(m.method)]);
    assert(flat(e3) =~= Seq::<Seq<char>>::empty());
    assert(flat(b0) =~= seq![l0]);
    assert(flat(c0) =~= seq![name_line(m.method)]);
    // the summary
    let ls = "      summary: "@ + m.summary;
    let ks = kv("summary:"@, m.summary);
    let b1 = if m.summary.len() > 0 { b0.push(seq![ls]) } else { b0 };
    let c1 = if m.summary.len() > 0 { c0.push(seq![ks]) } else { c0 };
    let p1 = if m.summary.len() > 0 { p0.push(ls) } else { p0 };
    if m.summary.len() > 0 {
        assert(ls =~= spaces(6) + ks);
        lemma_indented_line_block(6, ks);
        lemma_block_step(b0, c0, p0, seq![ls], seq![ks], ls);
    }
    // the description
    let ld = "      description: "@ + m.description;
    let kd = kv("description:"@, m.description);
    let b2 = if m.description.len() > 0 { b1.push(seq![ld]) } else { b1 };
    let c2 = if m.description.len() > 0 { c1.push(seq![kd]) } else { c1 };
    let p2 = if m.description.len() > 0 { p1.push(ld) } else { p1 };
    if m.description.len() > 0 {
        assert(ld =~= spaces(6) + kd);
        lemma_indented_line_block(6, kd);
        lemma_block_step(b1, c1, p1, seq![ld], seq![kd], ld);
    }
    // the headers
    let lh = "      headers:"@;
    let hl = headers_lines(m.header);
    let ht = join_with(headers_text(m.header), "\n"@);
    let b3 = if m.header.len() > 0 { b2.push(seq![lh]).push(hl) } else { b2 };
    let c3 = if m.header.len() > 0 {
        c2.push(seq!["headers:"@]).push(headers_core(m.header))
    } else {
        c2
    };
    let p3 = if m.header.len() > 0 { p2.push(lh).push(ht) } else { p2 };
    if m.header.len() > 0 {
        assert(lh =~= spaces(6) + "headers:"@);
        lemma_indented_line_block(6, "headers:"@);
        lemma_block_step(b2, c2, p2, seq![lh], seq!["headers:"@], lh);
        lemma_headers_lines(m.header);
        lemma_block_step(
            b2.push(seq![lh]),
            c2.push(seq!["headers:"@]),
            p2.push(lh),
            hl,
            headers_core(m.header),
            ht,
        );
    }
    // the request body
    let bp = body_parts(m.body);
    let b4 = if !body_is_empty(m.body) { b3.push(bp) } else { b3 };
    let c4 = if !body_is_empty(m.body) { c3.push(body_core(m.body)) } else { c3 };
    let p4 = if !body_is_empty(m.body) { p3.push(body_text(m.body)) } else { p3 };
    if !body_is_empty(m.body) {
        lemma_body_parts_trimmed(m.body);
        lemma_body_parts_indented(m.body);
        lemma_lines_text_joined(bp);
        assert("\n"@ =~= seq!['\n']);
        lemma_block_step(b3, c3, p3, bp, body_core(m.body), body_text(m.body));
    }
    // the responses
    let lr = "      responses:"@;
    let rl = responses_lines(m.responses);
    let rt = join_with(responses_text(m.responses), "\n"@);
    if m.responses.len() > 0 {
        assert(lr =~= spaces(6) + "responses:"@);
        lemma_indented_line_block(6, "responses:"@);
        lemma_block_step(b4, c4, p4, seq![lr], seq!["responses:"@], lr);
        lemma_responses_lines(m.responses);
        lemma_block_step(
            b4.push(seq![lr]),
            c4.push(seq!["responses:"@]),
            p4.push(lr),
            rl,
            responses_core(m.responses),
            rt,
        );
        assert(method_parts(m) == p4.push(lr).push(rt));
    } else {
        assert(method_parts(m) == p4);
    }
    assert(method_line_blocks(m) == (if m.responses.len() > 0 {
        b4.push(seq![lr]).push(rl)
    } else {
        b4
    }));
    assert(method_core_blocks(m) == (if m.responses.len() > 0 {
        c4.push(seq!["responses:"@]).push(responses_core(m.responses))
    } else {
        c4
    }));
    lemma_lines_text_joined(method_parts(m));
    assert("\n"@ =~= seq!['\n']);
    lemma_method_core_lines(m);
    lemma_line_values_untrim(method_lines(m));
    assert(method_lines(m).len() == method_core(m).len());
}

// ---------------------------------------------------------------------------
// Paths: cutting a path into methods
// ---------------------------------------------------------------------------
/// No method name and `:` start `line`.
proof fn lemma_first_method_key_none(line: Seq<char>, ms: Seq<Seq<char>>)
    requires
        forall|j: int| 0 <= j < ms.len() ==> !has_prefix(line, #[trigger] ms[j] + seq![':']),
    ensures
        first_method_key(line, ms) is None,
    decreases ms.len(),
{
    if ms.len() > 0 {
        assert(!has_prefix(line, ms[0] + seq![':']));
        assert forall|j: int| 0 <= j < ms.drop_first().len() implies !has_prefix(
            line,
            #[trigger] ms.drop_first()[j] + seq![':'],
        ) by {
            assert(ms.drop_first()[j] == ms[j + 1]);
        }
        lemma_first_method_key_none(line, ms.drop_first());
    }
}

/// A line that no HTTP method name and `:` start, told by its first letters.
proof fn lemma_not_method_line(l: Seq<char>)
    requires
        l.len() > 4,
        l[0] != 'g' && l[0] != 'p' && l[0] != 'o',
        l[0] == 'd' ==> l[2] != 'l',
        l[0] == 'h' ==> l[4] != ':',
        l[0] == 't' ==> l[1] != 'r',
        l[0] == 'c' ==> l[3] != 'n',
    ensures
        !is_method_line(l),
{
    reveal_strlit("get");
    reveal_strlit("post");
    reveal_strlit("put");
    reveal_strlit("delete");
    reveal_strlit("head");
    reveal_strlit("patch");
    reveal_strlit("trace");
    reveal_strlit("options");
    reveal_strlit("connect");
    let ms = http_methods();
    assert forall|j: int| 0 <= j < ms.len() implies !has_prefix(l, #[trigger] ms[j] + seq![':']) by {
        let p = ms[j] + seq![':'];
        if j == 3 && l[0] == 'd' {
            lemma_prefix_differs(l, p, 2);
        } else if j == 4 && l[0] == 'h' {
            lemma_prefix_differs(l, p, 4);
        } else if j == 6 && l[0] == 't' {
            lemma_prefix_differs(l, p, 1);
        } else if j == 8 && l[0] == 'c' {
            lemma_prefix_differs(l, p, 3);
        } else {
            lemma_prefix_differs(l, p, 0);
        }
    }
    lemma_first_method_key_none(l, ms);
}

/// A line that is not empty, does not start with `/` and opens no method.
pub open spec fn quiet_line(l: Seq<char>) -> bool {
    &&& l.len() > 0
    &&& l[0] != '/'
    &&& !is_method_line(l)
}

/// Every line of `ls` is quiet.
pub open spec fn quiet(ls: Seq<Seq<char>>) -> bool {
    forall|i: int| 0 <= i < ls.len() ==> quiet_line(#[trigger] ls[i])
}

proof fn lemma_quiet_concat(a: Seq<Seq<char>>, b: Seq<Seq<char>>)
    requires
        quiet(a),
        quiet(b),
    ensures
        quiet(a + b),
{
    assert forall|i: int| 0 <= i < (a + b).len() implies quiet_line(#[trigger] (a + b)[i]) by {
        if i < a.len() {
            assert((a + b)[i] == a[i]);
        } else {
            assert((a + b)[i] == b[i - a.len()]);
        }
    }
}

/// A `key: value` line with one of the keys of a method block is quiet.
proof fn lemma_kv_quiet(key: Seq<char>, v: Seq<char>)
    requires
        key == "summary:"@ || key == "description:"@ || key == "type:"@ || key == "example:"@
            || key == "required:"@,
    ensures
        quiet_line(kv(key, v)),
{
    reveal_strlit("summary:");
    reveal_strlit("description:");
    reveal_strlit("type:");
    reveal_strlit("example:");
    reveal_strlit("required:");
    let l = kv(key, v);
    assert(l.len() > 4);
    assert(forall|i: int| 0 <= i < key.len() ==> l[i] == key[i]);
    lemma_not_method_line(l);
}

/// A key line of a method block is quiet.
proof fn lemma_key_quiet(l: Seq<char>)
    requires
        l == "headers:"@ || l == "requestBody:"@ || l == "content:"@ || l == "responses:"@,
    ensures
        quiet_line(l),
{
    reveal_strlit("headers:");
    reveal_strlit("requestBody:");
    reveal_strlit("content:");
    reveal_strlit("responses:");
    lemma_not_method_line(l);
}

proof fn lemma_header_core_quiet(h: HeaderModel)
    requires
        header_ok(h),
    ensures
        quiet(header_core(h)),
{
    reveal_strlit("description:");
    reveal_strlit("type:");
    reveal_strlit("example:");
    let c = header_core(h);
    lemma_kv_quiet("description:"@, h.description);
    lemma_kv_quiet("type:"@, h.header_type);
    lemma_kv_quiet("example:"@, h.example);
    if h.name.len() > 0 {
        assert(name_line(h.name)[0] == h.name[0]);
    }
    assert(quiet_line(name_line(h.name)));
    assert forall|i: int| 0 <= i < c.len() implies quiet_line(#[trigger] c[i]) by {
        let p0 = seq![name_line(h.name)];
        let p1 = if h.description.len() > 0 {
            p0.push(kv("description:"@, h.description))
        } else {
            p0
        };
        let p2 = if h.header_type.len() > 0 {
            p1.push(kv("type:"@, h.header_type))
        } else {
            p1
        };
        if i < p1.len() {
            if i == 0 {
            } else {
                assert(c[i] == kv("description:"@, h.description));
            }
        } else if i < p2.len() {
            assert(c[i] == kv("type:"@, h.header_type));
        } else {
            assert(c[i] == kv("example:"@, h.example));
        }
    }
}

/// The line of a content type that can be read back is quiet.
proof fn lemma_content_line_quiet(ct: Seq<char>)
    requires
        ct.len() > 0,
        ct[0] != '/',
        !is_method_line(content_line(ct)),
    ensures
        quiet_line(content_line(ct)),
{
}

proof fn lemma_response_core_quiet(r: ResponseModel)
    requires
        response_ok(r),
    ensures
        quiet(response_core(r)),
{
    reveal_strlit("description:");
    let c = response_core(r);
    lemma_kv_quiet("description:"@, r.description);
    lemma_key_quiet("content:"@);
    assert(quiet_line(code_line(r.code))) by {
        let l = code_line(r.code);
        assert(l.len() > 4 && l[0] == '"');
        lemma_not_method_line(l);
    }
    if r.content_type.len() > 0 {
        lemma_content_line_quiet(r.content_type);
    }
    assert forall|i: int| 0 <= i < c.len() implies quiet_line(#[trigger] c[i]) by {
        if i == 0 {
        } else if r.description.len() > 0 && i == 1 {
        } else if i == c.len() - 2 {
        } else {
        }
    }
}

proof fn lemma_body_core_quiet(b: RequestBodyModel)
    requires
        body_content_type_ok(b.content_type),
    ensures
        quiet(body_core(b)),
{
    let c = body_core(b);
    lemma_key_quiet("requestBody:"@);
    lemma_kv_quiet("required:"@, "true"@);
    lemma_key_quiet("content:"@);
    if b.content_type.len() > 0 {
        lemma_content_line_quiet(b.content_type);
    }
    assert forall|i: int| 0 <= i < c.len() implies quiet_line(#[trigger] c[i]) by {
        if i == 0 {
        } else if b.required && i == 1 {
        } else if i == c.len() - 2 {
        } else {
        }
    }
}

proof fn lemma_flat_quiet_push(q: Seq<Seq<Seq<char>>>, b: Seq<Seq<char>>)
    requires
        quiet(flat(q)),
        quiet(b),
    ensures
        quiet(flat(q.push(b))),
{
    lemma_flat_push(q, b);
    lemma_quiet_concat(flat(q), b);
}

proof fn lemma_headers_core_quiet(hs: Seq<HeaderModel>)
    requires
        forall|i: int| 0 <= i < hs.len() ==> header_ok(#[trigger] hs[i]),
    ensures
        quiet(headers_core(hs)),
    decreases hs.len(),
{
    let f = |h: HeaderModel| header_core(h);
    if hs.len() == 0 {
        assert(hs.map_values(f) =~= Seq::<Seq<Seq<char>>>::empty());
    } else {
        let prev = hs.drop_last();
        assert forall|i: int| 0 <= i < prev.len() implies header_ok(#[trigger] prev[i]) by {
            assert(prev[i] == hs[i]);
        }
        lemma_headers_core_quiet(prev);
        assert(hs.map_values(f) =~= prev.map_values(f).push(header_core(hs.last())));
        assert(header_ok(hs[hs.len() - 1]));
        lemma_header_core_quiet(hs.last());
        lemma_flat_quiet_push(prev.map_values(f), header_core(hs.last()));
    }
}

proof fn lemma_responses_core_quiet(rs: Seq<ResponseModel>)
    requires
        forall|i: int| 0 <= i < rs.len() ==> response_ok(#[trigger] rs[i]),
    ensures
        quiet(responses_core(rs)),
    decreases rs.len(),
{
    let f = |r: ResponseModel| response_core(r);
    if rs.len() == 0 {
        assert(rs.map_values(f) =~= Seq::<Seq<Seq<char>>>::empty());
    } else {
        let prev = rs.drop_last();
        assert forall|i: int| 0 <= i < prev.len() implies response_ok(#[trigger] prev[i]) by {
            assert(prev[i] == rs[i]);
        }
        lemma_responses_core_quiet(prev);
        assert(rs.map_values(f) =~= prev.map_values(f).push(response_core(rs.last())));
        assert(response_ok(rs[rs.len() - 1]));
        lemma_response_core_quiet(rs.last());
        lemma_flat_quiet_push(prev.map_values(f), response_core(rs.last()));
    }
}

/// Every line of `ls` after the first is quiet.
pub open spec fn quiet_after_first(ls: Seq<Seq<char>>) -> bool {
    forall|i: int| 1 <= i < ls.len() ==> quiet_line(#[trigger] ls[i])
}

proof fn lemma_quiet_after_push(q: Seq<Seq<Seq<char>>>, b: Seq<Seq<char>>)
    requires
        flat(q).len() > 0,
        quiet_after_first(flat(q)),
        quiet(b),
    ensures
        quiet_after_first(flat(q.push(b))),
        flat(q.push(b)).len() > 0,
        flat(q.push(b))[0] == flat(q)[0],
{
    lemma_flat_push(q, b);
    let a = flat(q);
    assert forall|i: int| 1 <= i < (a + b).len() implies quiet_line(#[trigger] (a + b)[i]) by {
        if i < a.len() {
            assert((a + b)[i] == a[i]);
        } else {
            assert((a + b)[i] == b[i - a.len()]);
        }
    }
}

/// The lines of a method after its name line are quiet; its name line opens
/// a method and does not start with `/`.
#[verifier::spinoff_prover]
#[verifier::rlimit(40)]
proof fn lemma_method_core_quiet(m: MethodModel)
    requires
        method_ok(m),
    ensures
        method_core(m) == seq![name_line(m.method)] + method_core(m).drop_first(),
        quiet(method_core(m).drop_first()),
        is_method_line(name_line(m.method)),
        name_line(m.method)[0] != '/',
        name_line(m.method).len() > 0,
{
    let n = name_line(m.method);
    lemma_method_name_line(m.method);
    lemma_method_core_lines(m);
    let e3 = Seq::<Seq<Seq<char>>>::empty();
    let b0 = seq![seq![n]];
    assert(b0 =~= e3.push(seq![n]));
    lemma_flat_push(e3, seq![n]);
    assert(flat(e3) =~= Seq::<Seq<char>>::empty());
    assert(flat(b0) =~= seq![n]);
    assert(quiet_after_first(flat(b0)));
    let ks = kv("summary:"@, m.summary);
    let kd = kv("description:"@, m.description);
    let b1 = if m.summary.len() > 0 { b0.push(seq![ks]) } else { b0 };
    if m.summary.len() > 0 {
        lemma_kv_quiet("summary:"@, m.summary);
        lemma_quiet_after_push(b0, seq![ks]);
    }
    let b2 = if m.description.len() > 0 { b1.push(seq![kd]) } else { b1 };
    if m.description.len() > 0 {
        lemma_kv_quiet("description:"@, m.description);
        lemma_quiet_after_push(b1, seq![kd]);
    }
    let b3 = if m.header.len() > 0 {
        b2.push(seq!["headers:"@]).push(headers_core(m.header))
    } else {
        b2
    };
    if m.header.len() > 0 {
        lemma_key_quiet("headers:"@);
        lemma_quiet_after_push(b2, seq!["headers:"@]);
        lemma_headers_core_quiet(m.header);
        lemma_quiet_after_push(b2.push(seq!["headers:"@]), headers_core(m.header));
    }
    let b4 = if !body_is_empty(m.body) { b3.push(body_core(m.body)) } else { b3 };
    if !body_is_empty(m.body) {
        lemma_body_core_quiet(m.body);
        lemma_quiet_after_push(b3, body_core(m.body));
    }
    if m.responses.len() > 0 {
        lemma_key_quiet("responses:"@);
        lemma_quiet_after_push(b4, seq!["responses:"@]);
        lemma_responses_core_quiet(m.responses);
        lemma_quiet_after_push(b4.push(seq!["responses:"@]), responses_core(m.responses));
    }
    let c = method_core(m);
    assert(quiet_after_first(c));
    assert(c =~= seq![n] + c.drop_first());
    assert forall|i: int| 0 <= i < c.drop_first().len() implies quiet_line(
        #[trigger] c.drop_first()[i],
    ) by {
        assert(c.drop_first()[i] == c[i + 1]);
    }
}

proof fn lemma_chunk_push(ls: Seq<Seq<char>>, l: Seq<char>)
    ensures
        method_chunk_scan(ls.push(l)) == (if is_method_line(l) && method_chunk_scan(ls).1.len()
            > 0 {
            (method_chunk_scan(ls).0.push(method_chunk_scan(ls).1), with_newline(l))
        } else {
            (method_chunk_scan(ls).0, method_chunk_scan(ls).1 + with_newline(l))
        }),
{
    assert(ls.push(l).drop_last() =~= ls);
    assert(ls.push(l).last() == l);
}

/// Lines that open no method join the block being cut.
proof fn lemma_chunk_plain(x: Seq<Seq<char>>, q: Seq<Seq<char>>)
    requires
        quiet(q),
    ensures
        method_chunk_scan(x + q) == (method_chunk_scan(x).0, method_chunk_scan(x).1 + lines_text(q)),
    decreases q.len(),
{
    if q.len() == 0 {
        assert(x + q =~= x);
        assert(method_chunk_scan(x).1 + lines_text(q) =~= method_chunk_scan(x).1);
    } else {
        let q2 = q.drop_last();
        assert forall|i: int| 0 <= i < q2.len() implies quiet_line(#[trigger] q2[i]) by {
            assert(q2[i] == q[i]);
        }
        lemma_chunk_plain(x, q2);
        assert(x + q =~= (x + q2).push(q.last()));
        assert(quiet_line(q[q.len() - 1]));
        lemma_chunk_push(x + q2, q.last());
        lemma_lines_text_push(q2, q.last());
        assert(q2.push(q.last()) =~= q);
        assert(method_chunk_scan(x).1 + lines_text(q2) + with_newline(q.last()) =~= method_chunk_scan(
            x,
        ).1 + lines_text(q));
    }
}

/// The lines of a method close the block being cut and form a block of
/// their own.
proof fn lemma_chunk_method(x: Seq<Seq<char>>, m: MethodModel)
    requires
        method_ok(m),
    ensures
        method_chunk_scan(x + method_core(m)) == (
            flushed(method_chunk_scan(x).0, method_chunk_scan(x).1),
            lines_text(method_core(m)),
        ),
{
    let n = name_line(m.method);
    let rest = method_core(m).drop_first();
    lemma_method_core_quiet(m);
    lemma_chunk_push(x, n);
    assert(x + method_core(m) =~= x.push(n) + rest);
    lemma_chunk_plain(x.push(n), rest);
    let e = Seq::<Seq<char>>::empty();
    lemma_lines_text_push(e, n);
    assert(seq![n] =~= e.push(n));
    assert(lines_text(e) == Seq::<char>::empty());
    lemma_lines_text_concat(seq![n], rest);
    assert(Seq::<char>::empty() + with_newline(n) =~= with_newline(n));
    if method_chunk_scan(x).1.len() == 0 {
        assert(method_chunk_scan(x).1 + with_newline(n) =~= with_newline(n));
    }
}

/// The lines of the methods of a path, as read.
pub open spec fn methods_core(ms: Seq<MethodModel>) -> Seq<Seq<char>> {
    flat(ms.map_values(|m: MethodModel| method_core(m)))
}

/// The blocks the reader cuts the methods of a path into.
pub open spec fn method_texts(ms: Seq<MethodModel>) -> Seq<Seq<char>> {
    ms.map_values(|m: MethodModel| lines_text(method_core(m)))
}

/// Cutting the lines of methods gives each method its own block.
proof fn lemma_chunk_methods(ms: Seq<MethodModel>)
    requires
        ms.len() > 0,
        forall|i: int| 0 <= i < ms.len() ==> method_ok(#[trigger] ms[i]),
    ensures
        method_chunk_scan(methods_core(ms)) == (method_texts(ms).drop_last(), method_texts(ms).last()),
    decreases ms.len(),
{
    let f = |m: MethodModel| method_core(m);
    let prev = ms.drop_last();
    let m = ms.last();
    assert(ms.map_values(f) =~= prev.map_values(f).push(method_core(m)));
    lemma_flat_push(prev.map_values(f), method_core(m));
    assert(method_ok(ms[ms.len() - 1]));
    lemma_chunk_method(methods_core(prev), m);
    if ms.len() == 1 {
        assert(prev.map_values(f) =~= Seq::<Seq<Seq<char>>>::empty());
        assert(methods_core(prev) =~= Seq::<Seq<char>>::empty());
        assert(method_chunk_scan(Seq::<Seq<char>>::empty()) == (
            Seq::<Seq<char>>::empty(),
            Seq::<char>::empty(),
        ));
        assert(Seq::<Seq<char>>::empty() + method_core(m) =~= method_core(m));
        assert(method_texts(ms).drop_last() =~= Seq::<Seq<char>>::empty());
    } else {
        assert forall|i: int| 0 <= i < prev.len() implies method_ok(#[trigger] prev[i]) by {
            assert(prev[i] == ms[i]);
        }
        lemma_chunk_methods(prev);
        lemma_method_core_lines(prev.last());
        lemma_lines_text_nonempty(method_core(prev.last()));
        assert(method_texts(prev).last().len() > 0);
        assert(method_texts(ms).drop_last() =~= method_texts(prev));
        assert(method_texts(prev).drop_last().push(method_texts(prev).last()) =~= method_texts(
            prev,
        ));
    }
}

/// A path that reads back as itself once written: a name with no line break
/// and no `:`, and methods that read back as themselves.
pub open spec fn path_ok(p: PathModel) -> bool {
    &&& no_newline(p.path)
    &&& no_colon(p.path)
    &&& forall|i: int| 0 <= i < p.methods.len() ==> method_ok(#[trigger] p.methods[i])
}

/// The lines of the methods of a path as the list reader collects them: an
/// empty line stands for no methods (the writer ends the name line with a
/// line break either way).
pub open spec fn method_part_core(ms: Seq<MethodModel>) -> Seq<Seq<char>> {
    if ms.len() == 0 {
        seq![Seq::<char>::empty()]
    } else {
        methods_core(ms)
    }
}

/// The lines of the entry the list reader cuts for a path.
pub open spec fn path_entry_lines(p: PathModel) -> Seq<Seq<char>> {
    seq![name_line(p.path)] + method_part_core(p.methods)
}

proof fn lemma_methods_core_lines(ms: Seq<MethodModel>)
    requires
        forall|i: int| 0 <= i < ms.len() ==> method_ok(#[trigger] ms[i]),
    ensures
        all_line_values(methods_core(ms)),
        forall|i: int| 0 <= i < methods_core(ms).len() ==> (#[trigger] methods_core(ms)[i]).len()
            > 0 && methods_core(ms)[i][0] != '/',
        ms.len() > 0 ==> methods_core(ms).len() > 0,
    decreases ms.len(),
{
    let f = |m: MethodModel| method_core(m);
    if ms.len() == 0 {
        assert(ms.map_values(f) =~= Seq::<Seq<Seq<char>>>::empty());
        assert(methods_core(ms) =~= Seq::<Seq<char>>::empty());
    } else {
        let prev = ms.drop_last();
        let m = ms.last();
        assert forall|i: int| 0 <= i < prev.len() implies method_ok(#[trigger] prev[i]) by {
            assert(prev[i] == ms[i]);
        }
        lemma_methods_core_lines(prev);
        assert(ms.map_values(f) =~= prev.map_values(f).push(method_core(m)));
        lemma_flat_push(prev.map_values(f), method_core(m));
        assert(method_ok(ms[ms.len() - 1]));
        lemma_method_core_lines(m);
        lemma_method_core_quiet(m);
        lemma_all_line_values_concat(methods_core(prev), method_core(m));
        let a = methods_core(prev);
        let c = method_core(m);
        assert forall|i: int| 0 <= i < (a + c).len() implies (#[trigger] (a + c)[i]).len() > 0 && (a
            + c)[i][0] != '/' by {
            if i < a.len() {
                assert((a + c)[i] == a[i]);
            } else if i == a.len() {
                assert((a + c)[i] == c[0]);
            } else {
                assert((a + c)[i] == c[i - a.len()]);
                assert(c[i - a.len()] == c.drop_first()[i - a.len() - 1]);
                assert(quiet_line(c.drop_first()[i - a.len() - 1]));
            }
        }
    }
}

/// The lines of the methods of a path hold no line break, and none starts
/// with `/`.
proof fn lemma_method_part_core_lines(ms: Seq<MethodModel>)
    requires
        forall|i: int| 0 <= i < ms.len() ==> method_ok(#[trigger] ms[i]),
    ensures
        all_line_values(method_part_core(ms)),
        forall|i: int| 0 <= i < method_part_core(ms).len() ==> !has_prefix(
            #[trigger] method_part_core(ms)[i],
            "/"@,
        ),
        method_part_core(ms).len() > 0,
{
    reveal_strlit("/");
    lemma_methods_core_lines(ms);
    let c = method_part_core(ms);
    assert forall|i: int| 0 <= i < c.len() implies !has_prefix(#[trigger] c[i], "/"@) by {
        if ms.len() > 0 {
            lemma_not_prefix(c[i], "/"@);
        }
    }
    if ms.len() == 0 {
        assert(is_line_value(Seq::<char>::empty()));
    }
}

/// The entry of a written path: its name is the text before the first `:`,
/// and the lines after the first are the lines of its methods.
proof fn lemma_path_entry(p: PathModel)
    requires
        path_ok(p),
    ensures
        before_char(lines_text(path_entry_lines(p)), ':') == p.path,
        skip_first_line(lines_of(lines_text(path_entry_lines(p)))) == method_part_core(p.methods),
{
    let n = name_line(p.path);
    let mc = method_part_core(p.methods);
    let e = Seq::<Seq<char>>::empty();
    lemma_method_part_core_lines(p.methods);
    lemma_lines_text_push(e, n);
    assert(seq![n] =~= e.push(n));
    assert(lines_text(e) == Seq::<char>::empty());
    lemma_lines_text_concat(seq![n], mc);
    let yml = lines_text(path_entry_lines(p));
    assert(yml =~= p.path + (seq![':', '\n'] + lines_text(mc)));
    lemma_char_pos_concat(p.path, seq![':', '\n'] + lines_text(mc), ':');
    assert(yml.take(p.path.len() as int) =~= p.path);
    lemma_name_line_value(p.path);
    assert(all_line_values(seq![n]));
    lemma_all_line_values_concat(seq![n], mc);
    lemma_lines_of_lines_text(path_entry_lines(p));
    assert(skip_first_line(lines_of(yml)) =~= mc);
}

proof fn lemma_name_line_value(name: Seq<char>)
    requires
        no_newline(name),
    ensures
        is_line_value(name_line(name)),
{
    let n = name_line(name);
    assert forall|i: int| 0 <= i < n.len() implies n[i] != '\n' by {
        if i < name.len() {
            assert(n[i] == name[i]);
        }
    }
}

/// Cutting the lines of written methods into blocks and reading each gives
/// the methods back.
proof fn lemma_path_methods(ms: Seq<MethodModel>)
    requires
        forall|i: int| 0 <= i < ms.len() ==> method_ok(#[trigger] ms[i]),
    ensures
        methods_from_yml(method_chunks(join_with(method_part_core(ms), seq!['\n']))) == ms,
{
    let mc = method_part_core(ms);
    if ms.len() == 0 {
        assert(join_with(mc, seq!['\n']) == Seq::<char>::empty());
        let e = Seq::<Seq<char>>::empty();
        assert(lines_of(Seq::<char>::empty()) =~= e) by {
            assert(crate::text::line_scan(Seq::<char>::empty()) == (e, Seq::<char>::empty()));
        }
        assert(method_chunk_scan(e) == (e, Seq::<char>::empty()));
        assert(methods_from_yml(e) =~= ms);
    } else {
        lemma_methods_core_lines(ms);
        assert(mc[mc.len() - 1].len() > 0);
        lemma_lines_of_joined(mc);
        lemma_chunk_methods(ms);
        let texts = method_texts(ms);
        let m = ms.last();
        assert(method_ok(ms[ms.len() - 1]));
        lemma_method_core_lines(m);
        lemma_lines_text_nonempty(method_core(m));
        assert(texts.last().len() > 0);
        assert(texts.drop_last().push(texts.last()) =~= texts);
        assert(method_chunks(join_with(mc, seq!['\n'])) == texts);
        assert forall|i: int| 0 <= i < ms.len() implies #[trigger] methods_from_yml(texts)[i]
            == ms[i] by {
            lemma_method_read(ms[i]);
        }
        assert(methods_from_yml(texts) =~= ms);
    }
}

/// Reading the entry of a written path gives the path back.
proof fn lemma_path_read(p: PathModel)
    requires
        path_ok(p),
    ensures
        path_from_yml(lines_text(path_entry_lines(p))) == p,
{
    lemma_path_entry(p);
    lemma_path_methods(p.methods);
}

/// Reading the name line of a path without methods alone gives the path
/// back (what is left of the last path when the text ends after its name).
proof fn lemma_bare_path_read(p: PathModel)
    requires
        path_ok(p),
        p.methods.len() == 0,
    ensures
        path_from_yml(lines_text(seq![name_line(p.path)])) == p,
{
    let n = name_line(p.path);
    let e = Seq::<Seq<char>>::empty();
    lemma_lines_text_push(e, n);
    assert(seq![n] =~= e.push(n));
    assert(lines_text(e) == Seq::<char>::empty());
    let yml = lines_text(seq![n]);
    assert(yml =~= p.path + seq![':', '\n']);
    lemma_char_pos_concat(p.path, seq![':', '\n'], ':');
    assert(yml.take(p.path.len() as int) =~= p.path);
    lemma_name_line_value(p.path);
    assert(all_line_values(seq![n]));
    lemma_lines_of_lines_text(seq![n]);
    assert(skip_first_line(lines_of(yml)) =~= e);
    assert(join_with(e, seq!['\n']) == Seq::<char>::empty());
    assert(lines_of(Seq::<char>::empty()) =~= e) by {
        assert(crate::text::line_scan(Seq::<char>::empty()) == (e, Seq::<char>::empty()));
    }
    assert(method_chunk_scan(e) == (e, Seq::<char>::empty()));
    assert(methods_from_yml(e) =~= p.methods);
}

// ---------------------------------------------------------------------------
// Paths: the written lines and the list of paths
// ---------------------------------------------------------------------------
/// The written lines of methods.
pub open spec fn methods_lines(ms: Seq<MethodModel>) -> Seq<Seq<char>> {
    flat(ms.map_values(|m: MethodModel| method_lines(m)))
}

/// The written lines of the methods of a path: an empty line when there are
/// none (the name line is followed by a line break either way).
pub open spec fn method_part_lines(ms: Seq<MethodModel>) -> Seq<Seq<char>> {
    if ms.len() == 0 {
        seq![Seq::<char>::empty()]
    } else {
        methods_lines(ms)
    }
}

/// The written lines of a path: its name line, then its methods.
pub open spec fn path_lines(p: PathModel) -> Seq<Seq<char>> {
    seq!["  /"@ + p.path + ":"@] + method_part_lines(p.methods)
}

/// Whether every line of `ls` is empty or starts with a space.
pub open spec fn blank_or_indented(ls: Seq<Seq<char>>) -> bool {
    forall|i: int| 0 <= i < ls.len() ==> (#[trigger] ls[i]).len() == 0 || ls[i][0] == ' '
}

/// Lines that end with the same character are equal when the texts before
/// it are.
pub(crate) proof fn lemma_cancel_newline(a: Seq<char>, b: Seq<char>)
    requires
        a + seq!['\n'] == b + seq!['\n'],
    ensures
        a == b,
{
    assert((a + seq!['\n']).drop_last() =~= a);
    assert((b + seq!['\n']).drop_last() =~= b);
}

proof fn lemma_methods_lines(ms: Seq<MethodModel>)
    requires
        ms.len() > 0,
        forall|i: int| 0 <= i < ms.len() ==> method_ok(#[trigger] ms[i]),
    ensures
        trimmed(methods_lines(ms)) == methods_core(ms),
        lines_text(methods_lines(ms)) == with_newline(join_with(methods_text(ms), "\n"@)),
        indented(methods_lines(ms)),
{
    reveal_strlit("\n");
    let q = ms.map_values(|m: MethodModel| method_lines(m));
    lemma_flat_trimmed(q);
    assert(q.map_values(|l: Seq<Seq<char>>| trimmed(l)) =~= ms.map_values(
        |m: MethodModel| method_core(m),
    )) by {
        assert forall|i: int| 0 <= i < ms.len() implies trimmed(#[trigger] method_lines(ms[i]))
            == method_core(ms[i]) by {
            lemma_method_lines(ms[i]);
        }
    }
    assert forall|i: int| 0 <= i < q.len() implies (#[trigger] q[i]).len() > 0 && indented(q[i])
        && join_with(q[i], seq!['\n']) == crate::yml::method_text(ms[i]) by {
        lemma_method_lines(ms[i]);
        lemma_lines_text_joined(method_lines(ms[i]));
        assert("\n"@ =~= seq!['\n']);
        lemma_cancel_newline(join_with(q[i], seq!['\n']), crate::yml::method_text(ms[i]));
    }
    lemma_flat_text(q);
    assert("\n"@ =~= seq!['\n']);
    assert(q.map_values(|l: Seq<Seq<char>>| join_with(l, seq!['\n'])) =~= methods_text(ms));
    lemma_flat_indented(q);
}

/// The written lines of the methods of a path: with their indents dropped
/// they are the lines the list reader collects, and their text is the
/// methods' texts joined by line breaks.
proof fn lemma_method_part_lines(ms: Seq<MethodModel>)
    requires
        forall|i: int| 0 <= i < ms.len() ==> method_ok(#[trigger] ms[i]),
    ensures
        trimmed(method_part_lines(ms)) == method_part_core(ms),
        lines_text(method_part_lines(ms)) == with_newline(join_with(methods_text(ms), "\n"@)),
        blank_or_indented(method_part_lines(ms)),
        ms.len() > 0 ==> indented(method_part_lines(ms)),
{
    reveal_strlit("\n");
    if ms.len() == 0 {
        let e = Seq::<char>::empty();
        assert(trim_start_spaces(e) =~= e);
        assert(trimmed(seq![e]) =~= seq![e]);
        assert(methods_text(ms) =~= Seq::<Seq<char>>::empty());
        lemma_lines_text_push(Seq::<Seq<char>>::empty(), e);
        assert(seq![e] =~= Seq::<Seq<char>>::empty().push(e));
        assert(lines_text(Seq::<Seq<char>>::empty()) == e);
        assert(lines_text(seq![e]) =~= with_newline(join_with(methods_text(ms), "\n"@)));
    } else {
        lemma_methods_lines(ms);
    }
}

/// The written lines of a path: with their indents dropped they are `/`
/// and the lines of its entry, their text is the path's text, and each is
/// empty or starts with a space.
proof fn lemma_path_lines(p: PathModel)
    requires
        path_ok(p),
    ensures
        trimmed(path_lines(p)) == seq![seq!['/'] + name_line(p.path)] + method_part_core(
            p.methods,
        ),
        lines_text(path_lines(p)) == with_newline(path_text(p)),
        blank_or_indented(path_lines(p)),
        all_line_values(path_lines(p)),
        path_lines(p).len() > 1,
        p.methods.len() > 0 ==> path_lines(p).last().len() > 0,
        p.methods.len() == 0 ==> path_lines(p) == seq![
            "  /"@ + p.path + ":"@,
            Seq::<char>::empty(),
        ],
{
    reveal_strlit("  /");
    reveal_strlit(":");
    reveal_strlit(":\n");
    reveal_strlit("\n");
    let l0 = "  /"@ + p.path + ":"@;
    let t0 = seq!['/'] + name_line(p.path);
    let mp = method_part_lines(p.methods);
    assert(l0 =~= spaces(2) + t0);
    lemma_indented_line_block(2, t0);
    lemma_method_part_lines(p.methods);
    lemma_trimmed_concat(seq![l0], mp);
    lemma_lines_text_concat(seq![l0], mp);
    assert(lines_text(path_lines(p)) =~= with_newline(path_text(p)));
    assert(blank_or_indented(path_lines(p))) by {
        assert forall|i: int| 0 <= i < path_lines(p).len() implies (#[trigger] path_lines(
            p,
        )[i]).len() == 0 || path_lines(p)[i][0] == ' ' by {
            if i > 0 {
                assert(path_lines(p)[i] == mp[i - 1]);
            }
        }
    }
    // line values
    lemma_method_part_core_lines(p.methods);
    assert(is_line_value(t0)) by {
        assert forall|i: int| 0 <= i < t0.len() implies t0[i] != '\n' by {
            if 1 <= i < 1 + p.path.len() {
                assert(t0[i] == p.path[i - 1]);
            }
        }
    }
    assert(all_line_values(seq![t0]));
    lemma_all_line_values_concat(seq![t0], method_part_core(p.methods));
    lemma_line_values_untrim(path_lines(p));
    if p.methods.len() > 0 {
        assert(path_lines(p).last() == mp.last());
        assert(mp[mp.len() - 1].len() > 0);
    } else {
        assert(path_lines(p) =~= seq![l0, Seq::<char>::empty()]);
    }
}

/// Lines that do not start with `/` once their indents are dropped join the
/// entry being cut.
proof fn lemma_list_scan_plain(x: Seq<Seq<char>>, q: Seq<Seq<char>>)
    requires
        forall|i: int| 0 <= i < q.len() ==> !has_prefix(trim_start_spaces(#[trigger] q[i]), "/"@),
    ensures
        list_scan(x + q, "/"@) == (list_scan(x, "/"@).0, list_scan(x, "/"@).1 + lines_text(
            trimmed(q),
        )),
    decreases q.len(),
{
    if q.len() == 0 {
        assert(x + q =~= x);
        assert(trimmed(q) =~= Seq::<Seq<char>>::empty());
        assert(list_scan(x, "/"@).1 + lines_text(trimmed(q)) =~= list_scan(x, "/"@).1);
    } else {
        let q2 = q.drop_last();
        assert forall|i: int| 0 <= i < q2.len() implies !has_prefix(
            trim_start_spaces(#[trigger] q2[i]),
            "/"@,
        ) by {
            assert(q2[i] == q[i]);
        }
        lemma_list_scan_plain(x, q2);
        assert(x + q =~= (x + q2).push(q.last()));
        assert(!has_prefix(trim_start_spaces(q[q.len() - 1]), "/"@));
        lemma_list_scan_push(x + q2, q.last(), "/"@);
        assert(trimmed(q) =~= trimmed(q2).push(trim_start_spaces(q.last())));
        lemma_lines_text_push(trimmed(q2), trim_start_spaces(q.last()));
        assert(list_scan(x, "/"@).1 + lines_text(trimmed(q2)) + with_newline(
            trim_start_spaces(q.last()),
        ) =~= list_scan(x, "/"@).1 + lines_text(trimmed(q)));
    }
}

/// Cutting the name line of a path closes the entry being read and starts
/// the path's own entry.
proof fn lemma_path_name_step(x: Seq<Seq<char>>, p: PathModel)
    requires
        list_scan(x, "/"@).1.len() > 0,
    ensures
        list_scan(x.push("  /"@ + p.path + ":"@), "/"@) == (
            list_scan(x, "/"@).0.push(list_scan(x, "/"@).1),
            with_newline(name_line(p.path)),
        ),
{
    reveal_strlit("/");
    reveal_strlit("  /");
    reveal_strlit(":");
    let l0 = "  /"@ + p.path + ":"@;
    let t0 = seq!['/'] + name_line(p.path);
    assert(l0 =~= spaces(2) + t0);
    lemma_trim_indent(2, t0);
    lemma_list_scan_push(x, l0, "/"@);
    assert(has_prefix(t0, "/"@)) by {
        assert(t0.subrange(0, 1) =~= "/"@);
    }
    assert(drop_first_char(t0) =~= name_line(p.path));
}

/// Cutting the lines of one more path into the list being cut closes the
/// entry being read and starts the path's own entry.
proof fn lemma_path_list_step(x: Seq<Seq<char>>, p: PathModel)
    requires
        list_scan(x, "/"@).1.len() > 0,
        path_ok(p),
    ensures
        list_scan(x + path_lines(p), "/"@) == (
            list_scan(x, "/"@).0.push(list_scan(x, "/"@).1),
            lines_text(path_entry_lines(p)),
        ),
{
    let l0 = "  /"@ + p.path + ":"@;
    let mp = method_part_lines(p.methods);
    lemma_method_part_lines(p.methods);
    lemma_method_part_core_lines(p.methods);
    lemma_path_name_step(x, p);
    assert forall|i: int| 0 <= i < mp.len() implies !has_prefix(
        trim_start_spaces(#[trigger] mp[i]),
        "/"@,
    ) by {
        assert(trimmed(mp)[i] == trim_start_spaces(mp[i]));
        assert(!has_prefix(method_part_core(p.methods)[i], "/"@));
    }
    lemma_list_scan_plain(x.push(l0), mp);
    assert(x + path_lines(p) =~= x.push(l0) + mp);
    let e = Seq::<Seq<char>>::empty();
    lemma_lines_text_push(e, name_line(p.path));
    assert(seq![name_line(p.path)] =~= e.push(name_line(p.path)));
    assert(lines_text(e) == Seq::<char>::empty());
    lemma_lines_text_concat(seq![name_line(p.path)], method_part_core(p.methods));
}

/// The written lines of paths.
pub open spec fn paths_lines(ps: Seq<PathModel>) -> Seq<Seq<char>> {
    flat(ps.map_values(|p: PathModel| path_lines(p)))
}

/// The entries the list reader cuts for paths.
pub open spec fn path_entries(ps: Seq<PathModel>) -> Seq<Seq<char>> {
    ps.map_values(|p: PathModel| lines_text(path_entry_lines(p)))
}

/// The entry of a path is never empty.
proof fn lemma_path_entry_nonempty(p: PathModel)
    ensures
        lines_text(path_entry_lines(p)).len() > 0,
{
    lemma_lines_text_nonempty(path_entry_lines(p));
}

/// Cutting the lines `paths:`, then those of the paths before `p`, then the
/// name line of `p`.
pub(crate) proof fn lemma_paths_list_scan_to(ps: Seq<PathModel>, p: PathModel)
    requires
        forall|i: int| 0 <= i < ps.len() ==> path_ok(#[trigger] ps[i]),
    ensures
        list_scan((seq!["paths:"@] + paths_lines(ps)).push("  /"@ + p.path + ":"@), "/"@) == (
            seq![with_newline("paths:"@)] + path_entries(ps),
            with_newline(name_line(p.path)),
        ),
{
    reveal_strlit("paths:");
    reveal_strlit("/");
    let x = seq!["paths:"@] + paths_lines(ps);
    let e = Seq::<Seq<char>>::empty();
    if ps.len() == 0 {
        let f = |p: PathModel| path_lines(p);
        assert(ps.map_values(f) =~= Seq::<Seq<Seq<char>>>::empty());
        assert(paths_lines(ps) =~= e);
        assert(x =~= e.push("paths:"@));
        lemma_list_scan_push(e, "paths:"@, "/"@);
        assert(list_scan(e, "/"@) == (e, Seq::<char>::empty()));
        assert(leading_spaces("paths:"@) == 0);
        assert(trim_start_spaces("paths:"@) =~= "paths:"@);
        lemma_not_prefix("paths:"@, "/"@);
        assert(Seq::<char>::empty() + with_newline("paths:"@) =~= with_newline("paths:"@));
        lemma_path_name_step(x, p);
        assert(path_entries(ps) =~= e);
        assert(e.push(with_newline("paths:"@)) =~= seq![with_newline("paths:"@)] + e);
    } else {
        lemma_paths_list_scan(ps);
        lemma_path_entry_nonempty(ps.last());
        assert(path_entries(ps).last().len() > 0);
        lemma_path_name_step(x, p);
        assert((seq![with_newline("paths:"@)] + path_entries(ps).drop_last()).push(
            path_entries(ps).last(),
        ) =~= seq![with_newline("paths:"@)] + path_entries(ps));
    }
}

/// Cutting the paths section of a written document into entries.
pub(crate) proof fn lemma_paths_list_scan(ps: Seq<PathModel>)
    requires
        ps.len() > 0,
        forall|i: int| 0 <= i < ps.len() ==> path_ok(#[trigger] ps[i]),
    ensures
        list_scan(seq!["paths:"@] + paths_lines(ps), "/"@) == (
            seq![with_newline("paths:"@)] + path_entries(ps).drop_last(),
            path_entries(ps).last(),
        ),
    decreases ps.len(),
{
    reveal_strlit("paths:");
    reveal_strlit("/");
    let f = |p: PathModel| path_lines(p);
    let prev = ps.drop_last();
    let p = ps.last();
    let e = Seq::<Seq<char>>::empty();
    assert(ps.map_values(f) =~= prev.map_values(f).push(path_lines(p)));
    lemma_flat_push(prev.map_values(f), path_lines(p));
    let x = seq!["paths:"@] + paths_lines(prev);
    assert(seq!["paths:"@] + paths_lines(ps) =~= x + path_lines(p));
    assert(path_ok(ps[ps.len() - 1]));
    if ps.len() == 1 {
        assert(prev.map_values(f) =~= Seq::<Seq<Seq<char>>>::empty());
        assert(paths_lines(prev) =~= e);
        assert(x =~= e.push("paths:"@));
        lemma_list_scan_push(e, "paths:"@, "/"@);
        assert(list_scan(e, "/"@) == (e, Seq::<char>::empty()));
        assert(leading_spaces("paths:"@) == 0);
        assert(trim_start_spaces("paths:"@) =~= "paths:"@);
        lemma_not_prefix("paths:"@, "/"@);
        assert(Seq::<char>::empty() + with_newline("paths:"@) =~= with_newline("paths:"@));
        lemma_path_list_step(x, p);
        assert(path_entries(ps).drop_last() =~= e);
        assert(e.push(with_newline("paths:"@)) =~= seq![with_newline("paths:"@)] + e);
    } else {
        assert forall|i: int| 0 <= i < prev.len() implies path_ok(#[trigger] prev[i]) by {
            assert(prev[i] == ps[i]);
        }
        lemma_paths_list_scan(prev);
        lemma_path_entry_nonempty(prev.last());
        assert(path_entries(prev).last().len() > 0);
        lemma_path_list_step(x, p);
        assert(path_entries(ps).drop_last() =~= path_entries(prev));
        assert((seq![with_newline("paths:"@)] + path_entries(prev).drop_last()).push(
            path_entries(prev).last(),
        ) =~= seq![with_newline("paths:"@)] + path_entries(ps).drop_last());
    }
}

/// The written lines of paths: their text is the paths' texts joined by line
/// breaks, each is empty or starts with a space, and none holds a line break.
pub(crate) proof fn lemma_paths_lines(ps: Seq<PathModel>)
    requires
        ps.len() > 0,
        forall|i: int| 0 <= i < ps.len() ==> path_ok(#[trigger] ps[i]),
    ensures
        lines_text(paths_lines(ps)) == with_newline(join_with(paths_text(ps), "\n"@)),
        blank_or_indented(paths_lines(ps)),
        all_line_values(paths_lines(ps)),
        paths_lines(ps) == paths_lines(ps.drop_last()) + path_lines(ps.last()),
{
    reveal_strlit("\n");
    let q = ps.map_values(|p: PathModel| path_lines(p));
    assert forall|i: int| 0 <= i < q.len() implies (#[trigger] q[i]).len() > 0 && blank_or_indented(
        q[i],
    ) && all_line_values(q[i]) && join_with(q[i], seq!['\n']) == path_text(ps[i]) by {
        lemma_path_lines(ps[i]);
        lemma_lines_text_joined(path_lines(ps[i]));
        lemma_cancel_newline(join_with(q[i], seq!['\n']), path_text(ps[i]));
    }
    lemma_flat_text(q);
    assert("\n"@ =~= seq!['\n']);
    assert(q.map_values(|l: Seq<Seq<char>>| join_with(l, seq!['\n'])) =~= paths_text(ps));
    lemma_flat_blank_or_indented(q);
    lemma_flat_line_values(q);
    assert(q =~= ps.drop_last().map_values(|p: PathModel| path_lines(p)).push(path_lines(ps.last())));
    lemma_flat_push(ps.drop_last().map_values(|p: PathModel| path_lines(p)), path_lines(ps.last()));
}

proof fn lemma_flat_blank_or_indented(q: Seq<Seq<Seq<char>>>)
    requires
        forall|i: int| 0 <= i < q.len() ==> blank_or_indented(#[trigger] q[i]),
    ensures
        blank_or_indented(flat(q)),
    decreases q.len(),
{
    if q.len() == 0 {
        assert(flat(q) =~= Seq::<Seq<char>>::empty());
    } else {
        assert forall|i: int| 0 <= i < q.drop_last().len() implies blank_or_indented(
            #[trigger] q.drop_last()[i],
        ) by {
            assert(q.drop_last()[i] == q[i]);
        }
        lemma_flat_blank_or_indented(q.drop_last());
        let a = flat(q.drop_last());
        let b = q.last();
        assert(blank_or_indented(q[q.len() - 1]));
        assert forall|i: int| 0 <= i < (a + b).len() implies (#[trigger] (a + b)[i]).len() == 0 || (a
            + b)[i][0] == ' ' by {
            if i < a.len() {
                assert((a + b)[i] == a[i]);
            } else {
                assert((a + b)[i] == b[i - a.len()]);
            }
        }
    }
}

proof fn lemma_flat_line_values(q: Seq<Seq<Seq<char>>>)
    requires
        forall|i: int| 0 <= i < q.len() ==> all_line_values(#[trigger] q[i]),
    ensures
        all_line_values(flat(q)),
    decreases q.len(),
{
    if q.len() == 0 {
        assert(flat(q) =~= Seq::<Seq<char>>::empty());
    } else {
        assert forall|i: int| 0 <= i < q.drop_last().len() implies all_line_values(
            #[trigger] q.drop_last()[i],
        ) by {
            assert(q.drop_last()[i] == q[i]);
        }
        lemma_flat_line_values(q.drop_last());
        assert(all_line_values(q[q.len() - 1]));
        lemma_all_line_values_concat(flat(q.drop_last()), q.last());
    }
}

/// Reading the entries of written paths gives the paths back.
pub(crate) proof fn lemma_paths_read(ps: Seq<PathModel>)
    requires
        forall|i: int| 0 <= i < ps.len() ==> path_ok(#[trigger] ps[i]),
    ensures
        paths_from_yml(path_entries(ps)) == ps,
        ps.len() > 0 ==> path_entries(ps).last().len() > 0,
        ps.len() > 0 && ps.last().methods.len() == 0 ==> paths_from_yml(
            path_entries(ps.drop_last()).push(lines_text(seq![name_line(ps.last().path)])),
        ) == ps,
{
    assert forall|i: int| 0 <= i < ps.len() implies #[trigger] paths_from_yml(path_entries(ps))[i]
        == ps[i] by {
        lemma_path_read(ps[i]);
    }
    assert(paths_from_yml(path_entries(ps)) =~= ps);
    if ps.len() > 0 {
        lemma_path_entry_nonempty(ps.last());
        if ps.last().methods.len() == 0 {
            let prev = ps.drop_last();
            let es = path_entries(prev).push(lines_text(seq![name_line(ps.last().path)]));
            assert(path_ok(ps[ps.len() - 1]));
            lemma_bare_path_read(ps.last());
            assert forall|i: int| 0 <= i < ps.len() implies #[trigger] paths_from_yml(es)[i]
                == ps[i] by {
                if i < prev.len() {
                    assert(prev[i] == ps[i]);
                    lemma_path_read(ps[i]);
                }
            }
            assert(paths_from_yml(es) =~= ps);
        }
    }
}

/// What the document reader needs of the written lines of a path: how its
/// last line looks.
pub(crate) proof fn lemma_path_lines_facts(p: PathModel)
    requires
        path_ok(p),
    ensures
        p.methods.len() > 0 ==> path_lines(p).last().len() > 0,
        p.methods.len() == 0 ==> path_lines(p) == seq![
            "  /"@ + p.path + ":"@,
            Seq::<char>::empty(),
        ],
{
    lemma_path_lines(p);
}

// ---------------------------------------------------------------------------
// Laws on the elements of a method
// ---------------------------------------------------------------------------
/// White space before `c` is dropped by trimming along with that of `c`.
proof fn lemma_leading_white_space_concat(a: Seq<char>, c: Seq<char>)
    requires
        forall|i: int| 0 <= i < a.len() ==> is_white_space(#[trigger] a[i]),
    ensures
        leading_white_space(a + c) == a.len() + leading_white_space(c),
    decreases a.len(),
{
    if a.len() > 0 {
        assert((a + c)[0] == a[0]);
        assert((a + c).drop_first() =~= a.drop_first() + c);
        lemma_leading_white_space_concat(a.drop_first(), c);
    } else {
        assert(a + c =~= c);
    }
}

/// Trimming white space from a line gives what it gives once the leading
/// spaces are dropped.
proof fn lemma_trim_white_space_after_spaces(l: Seq<char>)
    ensures
        trim_white_space(l) == trim_white_space(trim_start_spaces(l)),
{
    crate::text::lemma_leading_spaces(l);
    let n = leading_spaces(l) as int;
    let a = l.take(n);
    let c = l.skip(n);
    assert(l =~= a + c);
    assert(is_white_space(' '));
    assert forall|i: int| 0 <= i < a.len() implies is_white_space(#[trigger] a[i]) by {
        assert(a[i] == l[i]);
    }
    lemma_leading_white_space_concat(a, c);
    crate::text::lemma_leading_white_space(c);
    assert(leading_white_space(l) == n + leading_white_space(c));
    assert(trim_start_spaces(l) == c);
    assert(l.skip(leading_white_space(l) as int) =~= c.skip(leading_white_space(c) as int));
}

/// Lines that trim to the same texts read as the same header.
proof fn lemma_header_fold_trimmed(a: Seq<Seq<char>>, b: Seq<Seq<char>>)
    requires
        a.len() == b.len(),
        forall|i: int| 0 <= i < a.len() ==> trim_white_space(#[trigger] a[i]) == trim_white_space(b[i]),
    ensures
        header_fold(a) == header_fold(b),
    decreases a.len(),
{
    if a.len() > 0 {
        assert forall|i: int| 0 <= i < a.drop_last().len() implies trim_white_space(
            #[trigger] a.drop_last()[i],
        ) == trim_white_space(b.drop_last()[i]) by {
            assert(a.drop_last()[i] == a[i]);
            assert(b.drop_last()[i] == b[i]);
        }
        lemma_header_fold_trimmed(a.drop_last(), b.drop_last());
        assert(trim_white_space(a[a.len() - 1]) == trim_white_space(b[b.len() - 1]));
    }
}

/// Writing a header and reading the text back gives the same header, when
/// its name has no line break, no white space at its start and no `:` at its
/// end, its name line does not start like a `description:`, `type:` or
/// `example:` line, and its values have no line break and no white space at
/// their end.
pub proof fn law_header_round_trip(h: HeaderModel)
    requires
        header_reads_back(h),
    ensures
        header_from_yml(crate::yml::header_text(h)) == h,
{
    reveal_strlit("\n");
    let parts = header_parts(h);
    let core = header_core(h);
    assert(is_white_space(' '));
    lemma_header_parts_trimmed(h);
    lemma_header_parts_indented(h);
    lemma_header_core_lines(h);
    lemma_line_values_untrim(parts);
    assert(parts[parts.len() - 1].len() > 0);
    lemma_lines_of_joined(parts);
    assert("\n"@ =~= seq!['\n']);
    assert(lines_of(crate::yml::header_text(h)) == parts);
    assert forall|i: int| 0 <= i < parts.len() implies trim_white_space(#[trigger] parts[i])
        == trim_white_space(core[i]) by {
        assert(trimmed(parts)[i] == trim_start_spaces(parts[i]));
        lemma_trim_white_space_after_spaces(parts[i]);
    }
    lemma_header_fold_trimmed(parts, core);
    lemma_header_read(h);
    lemma_lines_of_lines_text(core);
}

/// Writing a method and reading back its lines with their leading spaces
/// dropped (as the reader of a path hands them over) gives the same method,
/// when the method reads back as itself (see [`method_ok`]).
pub proof fn law_method_round_trip(m: MethodModel)
    requires
        method_ok(m),
    ensures
        method_from_yml(lines_text(trimmed(lines_of(method_text(m))))) == m,
{
    let ml = method_lines(m);
    lemma_method_lines(m);
    lemma_lines_text_joined(ml);
    lemma_cancel_newline(join_with(ml, seq!['\n']), method_text(m));
    assert(ml[ml.len() - 1].len() > 0);
    lemma_lines_of_joined(ml);
    lemma_method_read(m);
}

/// A request body is empty (not required, with no content type) exactly
/// when it is the default body.
pub proof fn law_body_empty_is_default(b: RequestBodyModel)
    ensures
        body_is_empty(b) <==> b == (RequestBodyModel { required: false, content_type: seq![] }),
{
    if body_is_empty(b) {
        assert(b.content_type =~= Seq::<char>::empty());
    }
}

/// The text of some parts joined by line breaks starts with the first part,
/// and is longer when there is more than one part.
proof fn lemma_join_first(p: Seq<Seq<char>>)
    requires
        p.len() > 0,
    ensures
        has_prefix(join_with(p, seq!['\n']), p[0]),
        p.len() > 1 ==> join_with(p, seq!['\n']).len() > p[0].len(),
    decreases p.len(),
{
    let j = join_with(p, seq!['\n']);
    if p.len() == 1 {
        assert(j.subrange(0, p[0].len() as int) =~= p[0]);
    } else {
        lemma_join_first(p.drop_last());
        let j0 = join_with(p.drop_last(), seq!['\n']);
        assert(p.drop_last()[0] == p[0]);
        assert(j =~= j0 + seq!['\n'] + p.last());
        assert(j.subrange(0, p[0].len() as int) =~= j0.subrange(0, p[0].len() as int));
    }
}

/// The text of a request body starts with its `requestBody:` line, is that
/// line alone exactly when the body is empty, and has the line
/// `required: true` exactly when the body is required.
pub proof fn law_body_text(b: RequestBodyModel)
    requires
        no_newline(b.content_type),
    ensures
        has_prefix(body_text(b), "      requestBody:"@),
        body_text(b) == "      requestBody:"@ <==> body_is_empty(b),
        lines_of(body_text(b)).contains("        required: true"@) <==> b.required,
{
    reveal_strlit("\n");
    reveal_strlit("      requestBody:");
    reveal_strlit("        required: true");
    reveal_strlit("        content:");
    reveal_strlit("          ");
    reveal_strlit(": {}");
    let p = body_parts(b);
    let l1 = "        required: true"@;
    assert("\n"@ =~= seq!['\n']);
    lemma_join_first(p);
    if body_is_empty(b) {
        assert(p == seq!["      requestBody:"@]);
        assert(join_with(p, seq!['\n']) == p[0]);
    }
    // the lines
    let ct = "          "@ + b.content_type + ": {}"@;
    assert(is_line_value(ct)) by {
        assert forall|i: int| 0 <= i < ct.len() implies ct[i] != '\n' by {
            if 10 <= i < 10 + b.content_type.len() {
                assert(ct[i] == b.content_type[i - 10]);
            }
        }
    }
    assert(all_line_values(p));
    assert(p[p.len() - 1].len() > 0);
    lemma_lines_of_joined(p);
    if b.required {
        assert(p[1] == l1);
    } else {
        assert forall|i: int| 0 <= i < p.len() implies p[i] != l1 by {
            if p[i] == ct {
                assert(ct[8] == ' ');
                assert(l1[8] == 'r');
            }
        }
    }
}

} // verus!
