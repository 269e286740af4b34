//! Properties that relate the readers and writers of the library.
use vstd::prelude::*;
use crate::text::{
    lines_text, lemma_lines_text_concat, lemma_lines_of_lines_text, lemma_lines_text_joined,
    lemma_leading_spaces_concat, ends_with_char, trim_end_char, lemma_trailing_char,
    skip_first_line, with_newline, all_no_newline, has_prefix, join_with, lemma_key_line,
    lemma_lines_of_joined, lemma_no_newline_concat, lemma_not_prefix, lines_of, no_newline,
    no_trailing_cr, trim_start_spaces, leading_spaces,
};
use crate::yml::{
    empty_info, first_method_key, server_text, servers_text, ServerModel, server_from_yml,
    server_fold, server_step, top_fold, top_step, TopScan, OpenApiModel, openapi_from_yml,
    openapi_text, paths_text, servers_from_yml, paths_from_yml, header_fold, header_from_yml,
    http_methods, info_fold, info_from_yml, info_step, info_text, list_scan, method_fold,
    method_from_yml, response_fold, response_from_yml, yml_list_by_separator, flushed, InfoModel,
    PathModel,
};
use crate::status_pattern::is_ascii_digit;
use crate::round_trip::{
    path_ok, paths_lines, path_entries, path_lines, lemma_paths_lines, lemma_paths_list_scan,
    lemma_paths_list_scan_to, lemma_paths_read, lemma_cancel_newline, name_line,
};

verus! {

/// Whether `s` can stand as a value on a line of its own: it holds no line
/// break and does not end with a carriage return.
pub open spec fn is_line_value(s: Seq<char>) -> bool {
    no_newline(s) && no_trailing_cr(s)
}

/// The line `"  " + key + " " + v` of an info section.
pub(crate) open spec fn key_line(key: Seq<char>, v: Seq<char>) -> Seq<char> {
    seq![' ', ' '] + key + seq![' '] + v
}

/// The four lines of the text of an info section.
pub(crate) open spec fn info_parts(info: InfoModel) -> Seq<Seq<char>> {
    seq![
        seq!['i', 'n', 'f', 'o', ':'],
        key_line("title:"@, info.title),
        key_line("description:"@, info.description),
        key_line("version:"@, info.version),
    ]
}

/// The text of an info section is its four lines joined by line breaks.
proof fn lemma_info_text_parts(info: InfoModel)
    ensures
        info_text(info) == join_with(info_parts(info), seq!['\n']),
{
    reveal_strlit("info:\n  title: ");
    reveal_strlit("\n  description: ");
    reveal_strlit("\n  version: ");
    reveal_strlit("title:");
    reveal_strlit("description:");
    reveal_strlit("version:");
    let parts = info_parts(info);
    let head = parts[0];
    let (p1, p2, p3) = (parts[1], parts[2], parts[3]);
    let nl = seq!['\n'];
    let sp = seq![' ', ' '];
    assert(join_with(seq![head], nl) == head);
    assert(join_with(seq![head, p1], nl) == head + nl + p1) by {
        assert(seq![head, p1].drop_last() =~= seq![head]);
    }
    assert(join_with(seq![head, p1, p2], nl) == head + nl + p1 + nl + p2) by {
        assert(seq![head, p1, p2].drop_last() =~= seq![head, p1]);
    }
    assert(parts.drop_last() =~= seq![head, p1, p2]);
    assert(join_with(parts, nl) == head + nl + p1 + nl + p2 + nl + p3);
    assert("info:\n  title: "@ =~= head + nl + sp + "title:"@ + seq![' ']);
    assert("\n  description: "@ =~= nl + sp + "description:"@ + seq![' ']);
    assert("\n  version: "@ =~= nl + sp + "version:"@ + seq![' ']);
    assert(info_text(info) =~= join_with(parts, nl));
}

/// No line of an info section holds a line break when its values hold none;
/// a line ends with a carriage return only when its value does.
pub(crate) proof fn lemma_info_parts_lines(info: InfoModel)
    requires
        no_newline(info.title),
        no_newline(info.description),
        no_newline(info.version),
    ensures
        all_no_newline(info_parts(info)),
        no_trailing_cr(info.title) ==> no_trailing_cr(info_parts(info)[1]),
        no_trailing_cr(info.description) ==> no_trailing_cr(info_parts(info)[2]),
        no_trailing_cr(info.version) ==> no_trailing_cr(info_parts(info)[3]),
        no_trailing_cr(info_parts(info)[0]),
{
    reveal_strlit("title:");
    reveal_strlit("description:");
    reveal_strlit("version:");
    let parts = info_parts(info);
    lemma_key_line_text("title:"@, info.title);
    lemma_key_line_text("description:"@, info.description);
    lemma_key_line_text("version:"@, info.version);
    assert(no_newline(parts[0]));
    assert forall|i: int| 0 <= i < parts.len() implies no_newline(#[trigger] parts[i]) by {
        if i == 0 {
        } else if i == 1 {
        } else if i == 2 {
        } else {
        }
    }
}

/// A key line holds no line break when its key and value hold none, and ends
/// with a carriage return only when its value does.
proof fn lemma_key_line_text(key: Seq<char>, v: Seq<char>)
    requires
        no_newline(key),
        no_newline(v),
    ensures
        no_newline(key_line(key, v)),
        no_trailing_cr(v) ==> no_trailing_cr(key_line(key, v)),
{
    let sp = seq![' ', ' '];
    assert(no_newline(sp));
    assert(no_newline(seq![' ']));
    lemma_no_newline_concat(sp, key);
    lemma_no_newline_concat(sp + key, seq![' ']);
    lemma_no_newline_concat(sp + key + seq![' '], v);
    if v.len() > 0 {
        assert(key_line(key, v).last() == v.last());
    }
}

/// Reading the four lines of an info section gives the section back.
pub(crate) proof fn lemma_info_parts_read(info: InfoModel)
    ensures
        info_fold(info_parts(info)) == info,
{
    reveal_strlit("title:");
    reveal_strlit("description:");
    reveal_strlit("version:");
    let k_title = "title:"@;
    let k_desc = "description:"@;
    let k_ver = "version:"@;
    let sp = seq![' ', ' '];
    let parts = info_parts(info);
    let head = parts[0];
    let (p1, p2, p3) = (parts[1], parts[2], parts[3]);
    assert(info_fold(Seq::<Seq<char>>::empty()) == empty_info());
    assert(seq![head].drop_last() =~= Seq::<Seq<char>>::empty());
    assert(info_fold(seq![head]) == info_step(empty_info(), head));
    assert(seq![head, p1].drop_last() =~= seq![head]);
    assert(info_fold(seq![head, p1]) == info_step(info_fold(seq![head]), p1));
    assert(seq![head, p1, p2].drop_last() =~= seq![head, p1]);
    assert(info_fold(seq![head, p1, p2]) == info_step(info_fold(seq![head, p1]), p2));
    assert(parts.drop_last() =~= seq![head, p1, p2]);
    assert(info_fold(parts) == info_step(info_fold(seq![head, p1, p2]), p3));

    assert(leading_spaces(head) == 0);
    assert(trim_start_spaces(head) =~= head);
    assert(info_step(empty_info(), head) == empty_info());

    lemma_key_line(sp, k_title, info.title);
    lemma_key_line(Seq::<char>::empty(), k_title, info.title);
    assert(Seq::<char>::empty() + k_title + seq![' '] + info.title =~= k_title + seq![' ']
        + info.title);
    let i1 = info_step(empty_info(), p1);
    assert(i1 == InfoModel { title: info.title, ..empty_info() });

    lemma_key_line(sp, k_desc, info.description);
    lemma_key_line(Seq::<char>::empty(), k_desc, info.description);
    assert(Seq::<char>::empty() + k_desc + seq![' '] + info.description =~= k_desc + seq![' ']
        + info.description);
    lemma_not_prefix(k_desc + seq![' '] + info.description, k_title);
    let i2 = info_step(i1, p2);
    assert(i2 == InfoModel { description: info.description, ..i1 });

    lemma_key_line(sp, k_ver, info.version);
    lemma_key_line(Seq::<char>::empty(), k_ver, info.version);
    assert(Seq::<char>::empty() + k_ver + seq![' '] + info.version =~= k_ver + seq![' ']
        + info.version);
    lemma_not_prefix(k_ver + seq![' '] + info.version, k_title);
    lemma_not_prefix(k_ver + seq![' '] + info.version, k_desc);
    let i3 = info_step(i2, p3);
    assert(i3 == InfoModel { version: info.version, ..i2 });
}

/// Writing an info section and reading it back gives the same section, when
/// its values hold no line break and the title and description do not end
/// with a carriage return.
pub proof fn law_info_round_trip(info: InfoModel)
    requires
        no_newline(info.title),
        no_newline(info.description),
        no_newline(info.version),
        no_trailing_cr(info.title),
        no_trailing_cr(info.description),
    ensures
        info_from_yml(info_text(info)) == info,
{
    lemma_info_text_parts(info);
    lemma_info_parts_lines(info);
    let parts = info_parts(info);
    assert(parts[3].len() > 0);
    lemma_lines_of_joined(parts);
    lemma_info_parts_read(info);
}

/// The method a `first_method_key` search finds is one of the methods searched.
proof fn lemma_first_method_key_in(line: Seq<char>, ms: Seq<Seq<char>>)
    ensures
        first_method_key(line, ms) matches Some(m) ==> ms.contains(m),
    decreases ms.len(),
{
    if ms.len() > 0 && !crate::text::has_prefix(line, ms[0] + seq![':']) {
        lemma_first_method_key_in(line, ms.drop_first());
        if let Some(m) = first_method_key(line, ms.drop_first()) {
            let k = choose|k: int| 0 <= k < ms.drop_first().len() && ms.drop_first()[k] == m;
            assert(ms[k + 1] == m);
        }
    } else if ms.len() > 0 {
        assert(ms[0] == ms[0]);
    }
}

/// Whether `m` is empty or the name of an HTTP method.
pub open spec fn empty_or_http_method(m: Seq<char>) -> bool {
    m.len() == 0 || http_methods().contains(m)
}

proof fn lemma_method_fold_name(ls: Seq<Seq<char>>)
    ensures
        empty_or_http_method(method_fold(ls).method),
    decreases ls.len(),
{
    if ls.len() > 0 {
        lemma_method_fold_name(ls.drop_last());
        lemma_first_method_key_in(ls.last(), http_methods());
    }
}

/// The method name read from a method block is empty or one of the HTTP
/// methods `get`, `post`, `put`, `delete`, `head`, `patch`, `trace`,
/// `options` and `connect`.
pub proof fn law_method_name_is_http_method(yml: Seq<char>)
    ensures
        empty_or_http_method(method_from_yml(yml).method),
{
    lemma_method_fold_name(lines_of(yml));
}

/// The method a `first_method_prefix` search finds is one of the methods
/// searched.
proof fn lemma_first_method_prefix_in(line: Seq<char>, ms: Seq<Seq<char>>)
    ensures
        crate::open_api::first_method_prefix(line, ms) matches Some(m) ==> ms.contains(m),
    decreases ms.len(),
{
    if ms.len() > 0 && !has_prefix(line, ms[0]) {
        lemma_first_method_prefix_in(line, ms.drop_first());
        if let Some(m) = crate::open_api::first_method_prefix(line, ms.drop_first()) {
            let k = choose|k: int| 0 <= k < ms.drop_first().len() && ms.drop_first()[k] == m;
            assert(ms[k + 1] == m);
        }
    } else if ms.len() > 0 {
        assert(ms[0] == ms[0]);
    }
}

proof fn lemma_simple_method_fold_name(ls: Seq<Seq<char>>)
    ensures
        empty_or_http_method(crate::open_api::method_fold(ls).method),
    decreases ls.len(),
{
    if ls.len() > 0 {
        lemma_simple_method_fold_name(ls.drop_last());
        lemma_first_method_prefix_in(ls.last(), http_methods());
    }
}

/// The method name read by the simpler reader from a method block is empty
/// or one of the HTTP methods.
pub proof fn law_simple_reader_method_name_is_http_method(yml: Seq<char>)
    ensures
        empty_or_http_method(crate::open_api::method_from_yml(yml).method),
{
    lemma_simple_method_fold_name(lines_of(yml));
}

/// Whether `code` is empty or made of exactly three ASCII digits.
pub open spec fn empty_or_status_code(code: Seq<char>) -> bool {
    code.len() == 0 || (code.len() == 3 && forall|i: int| 0 <= i < 3 ==> is_ascii_digit(
        #[trigger] code[i],
    ))
}

proof fn lemma_response_fold_code(ls: Seq<Seq<char>>)
    ensures
        empty_or_status_code(response_fold(ls).code),
    decreases ls.len(),
{
    if ls.len() > 0 {
        lemma_response_fold_code(ls.drop_last());
        let l = ls.last();
        if crate::status_pattern::quoted_status(l) {
            let c = crate::status_pattern::quoted_status_code(l);
            assert(c[0] == l[1] && c[1] == l[2] && c[2] == l[3]);
        }
    }
}

/// The status code read from a response block is empty or made of exactly
/// three ASCII digits.
pub proof fn law_response_code_is_three_digits(yml: Seq<char>)
    ensures
        empty_or_status_code(response_from_yml(yml).code),
{
    lemma_response_fold_code(lines_of(yml));
}

proof fn lemma_simple_response_fold_code(ls: Seq<Seq<char>>)
    ensures
        empty_or_status_code(crate::open_api::response_fold(ls).code),
    decreases ls.len(),
{
    if ls.len() > 0 {
        lemma_simple_response_fold_code(ls.drop_last());
        let l = ls.last();
        if crate::status_pattern::quoted_status(l) {
            let c = crate::status_pattern::quoted_status_code(l);
            assert(c[0] == l[1] && c[1] == l[2] && c[2] == l[3]);
        }
    }
}

/// The status code read by the simpler reader from a response block is empty
/// or made of exactly three ASCII digits.
pub proof fn law_simple_reader_response_code_is_three_digits(yml: Seq<char>)
    ensures
        empty_or_status_code(crate::open_api::response_from_yml(yml).code),
{
    lemma_simple_response_fold_code(lines_of(yml));
}

/// Dropping the `c` characters a text ends with leaves a text that does not
/// end with `c`.
proof fn lemma_trim_end_char(s: Seq<char>, c: char)
    ensures
        !ends_with_char(trim_end_char(s, c), c),
    decreases s.len(),
{
    lemma_trailing_char(s, c);
    if s.len() > 0 && s.last() == c {
        lemma_trim_end_char(s.drop_last(), c);
        assert(trim_end_char(s, c) =~= trim_end_char(s.drop_last(), c));
    }
}

proof fn lemma_header_fold_name(ls: Seq<Seq<char>>)
    ensures
        !ends_with_char(header_fold(ls).name, ':'),
    decreases ls.len(),
{
    if ls.len() > 0 {
        lemma_header_fold_name(ls.drop_last());
        let l = crate::text::trim_white_space(ls.last());
        lemma_trim_end_char(l, ':');
    }
}

/// The name read from a header block never ends with a colon.
pub proof fn law_header_name_has_no_trailing_colon(yml: Seq<char>)
    ensures
        !ends_with_char(header_from_yml(yml).name, ':'),
{
    lemma_header_fold_name(lines_of(yml));
}

/// Whether every entry of `items` ends with a line break.
pub open spec fn all_end_with_newline(items: Seq<Seq<char>>) -> bool {
    forall|i: int| 0 <= i < items.len() ==> ends_with_char(#[trigger] items[i], '\n')
}

proof fn lemma_list_scan_newlines(ls: Seq<Seq<char>>, sep: Seq<char>)
    ensures
        all_end_with_newline(list_scan(ls, sep).0),
        list_scan(ls, sep).1.len() == 0 || ends_with_char(list_scan(ls, sep).1, '\n'),
    decreases ls.len(),
{
    if ls.len() > 0 {
        lemma_list_scan_newlines(ls.drop_last(), sep);
        let (items, cur) = list_scan(ls.drop_last(), sep);
        let f = flushed(items, cur);
        assert forall|i: int| 0 <= i < f.len() implies ends_with_char(#[trigger] f[i], '\n') by {
            if i < items.len() {
                assert(f[i] == items[i]);
            }
        }
        let t = crate::text::trim_start_spaces(ls.last());
        assert(with_newline(crate::text::drop_first_char(t)).last() == '\n');
        assert((cur + with_newline(t)).last() == '\n');
    }
}

/// Every entry of a YAML list cut by `yml_list_2_vec_by_separator` ends with
/// a line break.
pub proof fn law_list_entries_end_with_newline(yml: Seq<char>, sep: Seq<char>)
    ensures
        all_end_with_newline(yml_list_by_separator(yml, sep)),
{
    lemma_list_scan_newlines(lines_of(yml), sep);
    let (items, cur) = list_scan(lines_of(yml), sep);
    let f = flushed(items, cur);
    assert forall|i: int| 0 <= i < f.len() implies ends_with_char(#[trigger] f[i], '\n') by {
        if i < items.len() {
            assert(f[i] == items[i]);
        }
    }
    let r = skip_first_line(f);
    assert forall|i: int| 0 <= i < r.len() implies ends_with_char(#[trigger] r[i], '\n') by {
        assert(r[i] == f[i + 1]);
    }
}

// ---------------------------------------------------------------------------
// Writing a document and reading it back
// ---------------------------------------------------------------------------
/// Whether every sequence of `q` can stand as a value on a line of its own.
pub open spec fn all_line_values(q: Seq<Seq<char>>) -> bool {
    forall|i: int| 0 <= i < q.len() ==> is_line_value(#[trigger] q[i])
}

pub(crate) proof fn lemma_all_line_values_concat(a: Seq<Seq<char>>, b: Seq<Seq<char>>)
    requires
        all_line_values(a),
        all_line_values(b),
    ensures
        all_line_values(a + b),
{
    assert forall|i: int| 0 <= i < (a + b).len() implies is_line_value(#[trigger] (a + b)[i]) by {
        if i < a.len() {
            assert((a + b)[i] == a[i]);
        } else {
            assert((a + b)[i] == b[i - a.len()]);
        }
    }
}

pub(crate) proof fn lemma_line_value_concat(a: Seq<char>, b: Seq<char>)
    requires
        no_newline(a),
        is_line_value(b),
        b.len() > 0 || no_trailing_cr(a),
    ensures
        is_line_value(a + b),
{
    lemma_no_newline_concat(a, b);
    if b.len() > 0 {
        assert((a + b).last() == b.last());
    } else {
        assert(a + b =~= a);
    }
}

/// The first line of a server entry.
pub(crate) open spec fn url_line(s: ServerModel) -> Seq<char> {
    "  - url: "@ + s.url
}

/// The second line of a server entry.
pub(crate) open spec fn server_desc_line(s: ServerModel) -> Seq<char> {
    "    description: "@ + s.description
}

/// The lines of the texts of servers.
pub(crate) open spec fn server_lines(ss: Seq<ServerModel>) -> Seq<Seq<char>>
    decreases ss.len(),
{
    if ss.len() == 0 {
        seq![]
    } else {
        server_lines(ss.drop_last()) + seq![url_line(ss.last()), server_desc_line(ss.last())]
    }
}

/// The entry a server becomes once its list is cut into entries.
spec fn server_entry(s: ServerModel) -> Seq<char> {
    with_newline(seq![' '] + "url:"@ + seq![' '] + s.url) + with_newline(
        "description:"@ + seq![' '] + s.description,
    )
}

proof fn lemma_server_text_lines(s: ServerModel)
    ensures
        server_text(s) == url_line(s) + seq!['\n'] + server_desc_line(s),
{
    reveal_strlit("\n    description: ");
    reveal_strlit("    description: ");
    assert("\n    description: "@ =~= seq!['\n'] + "    description: "@);
    assert(server_text(s) =~= url_line(s) + seq!['\n'] + server_desc_line(s));
}

/// The lines of the texts of servers, followed by line breaks, are the texts
/// joined by line breaks, with one more at the end.
proof fn lemma_server_lines_text(ss: Seq<ServerModel>)
    requires
        ss.len() > 0,
    ensures
        lines_text(server_lines(ss)) == join_with(servers_text(ss), seq!['\n']) + seq!['\n'],
    decreases ss.len(),
{
    let s = ss.last();
    let two = seq![url_line(s), server_desc_line(s)];
    lemma_server_text_lines(s);
    assert(two =~= Seq::<Seq<char>>::empty().push(url_line(s)).push(server_desc_line(s)));
    lemma_lines_text_push(Seq::<Seq<char>>::empty(), url_line(s));
    lemma_lines_text_push(Seq::<Seq<char>>::empty().push(url_line(s)), server_desc_line(s));
    assert(lines_text(Seq::<Seq<char>>::empty()) == Seq::<char>::empty());
    assert(lines_text(two) =~= with_newline(url_line(s)) + with_newline(server_desc_line(s)));
    lemma_lines_text_concat(server_lines(ss.drop_last()), two);
    if ss.len() == 1 {
        assert(server_lines(ss.drop_last()) =~= Seq::<Seq<char>>::empty());
        assert(servers_text(ss) =~= seq![server_text(s)]);
        assert(lines_text(server_lines(ss)) =~= join_with(servers_text(ss), seq!['\n']) + seq!['\n']);
    } else {
        lemma_server_lines_text(ss.drop_last());
        assert(servers_text(ss).drop_last() =~= servers_text(ss.drop_last()));
        assert(servers_text(ss).last() == server_text(s));
        assert(lines_text(server_lines(ss)) =~= join_with(servers_text(ss), seq!['\n']) + seq!['\n']);
    }
}

/// Cutting one more line into the list being cut.
pub(crate) proof fn lemma_list_scan_push(ls: Seq<Seq<char>>, l: Seq<char>, sep: Seq<char>)
    ensures
        list_scan(ls.push(l), sep) == (if has_prefix(trim_start_spaces(l), sep) {
            (
                flushed(list_scan(ls, sep).0, list_scan(ls, sep).1),
                with_newline(crate::text::drop_first_char(trim_start_spaces(l))),
            )
        } else {
            (list_scan(ls, sep).0, list_scan(ls, sep).1 + with_newline(trim_start_spaces(l)))
        }),
{
    assert(ls.push(l).drop_last() =~= ls);
    assert(ls.push(l).last() == l);
}

/// Reading one more line of a server entry.
proof fn lemma_server_fold_push(ls: Seq<Seq<char>>, l: Seq<char>)
    ensures
        server_fold(ls.push(l)) == server_step(server_fold(ls), l),
{
    assert(ls.push(l).drop_last() =~= ls);
    assert(ls.push(l).last() == l);
}

/// The text of one more line.
pub(crate) proof fn lemma_lines_text_push(ls: Seq<Seq<char>>, l: Seq<char>)
    ensures
        lines_text(ls.push(l)) == lines_text(ls) + with_newline(l),
{
    assert(ls.push(l).drop_last() =~= ls);
    assert(ls.push(l).last() == l);
}

/// Cutting the two lines of one more server into the list being cut closes
/// the entry being read and starts the server's own entry.
proof fn lemma_server_list_step(ls: Seq<Seq<char>>, s: ServerModel)
    requires
        list_scan(ls, "-"@).1.len() > 0,
    ensures
        list_scan(ls + seq![url_line(s), server_desc_line(s)], "-"@) == (
            list_scan(ls, "-"@).0.push(list_scan(ls, "-"@).1),
            server_entry(s),
        ),
{
    reveal_strlit("-");
    reveal_strlit("  - url: ");
    reveal_strlit("    description: ");
    reveal_strlit("url:");
    reveal_strlit("description:");
    let u = url_line(s);
    let d = server_desc_line(s);
    let all = ls + seq![u, d];
    assert(all =~= ls.push(u).push(d));
    lemma_list_scan_push(ls, u, "-"@);
    lemma_list_scan_push(ls.push(u), d, "-"@);
    // the url line
    let sp2 = seq![' ', ' '];
    let rest = seq!['-', ' '] + "url:"@ + seq![' '] + s.url;
    assert(u =~= sp2 + rest);
    lemma_leading_spaces_concat(sp2, rest);
    assert(leading_spaces(rest) == 0);
    assert(rest.skip(0) =~= rest);
    assert(trim_start_spaces(u) == rest);
    assert(has_prefix(rest, "-"@)) by {
        assert(rest.subrange(0, 1) =~= "-"@);
    }
    assert(crate::text::drop_first_char(rest) =~= seq![' '] + "url:"@ + seq![' '] + s.url);
    // the description line
    let sp4 = seq![' ', ' ', ' ', ' '];
    assert(d =~= sp4 + "description:"@ + seq![' '] + s.description);
    lemma_key_line(sp4, "description:"@, s.description);
    lemma_not_prefix("description:"@ + seq![' '] + s.description, "-"@);
}

/// Cutting the server section of a written document into entries.
proof fn lemma_server_list_scan(ss: Seq<ServerModel>)
    requires
        ss.len() > 0,
    ensures
        list_scan(seq!["servers:"@] + server_lines(ss), "-"@) == (
            seq![with_newline("servers:"@)] + ss.drop_last().map_values(
                |s: ServerModel| server_entry(s),
            ),
            server_entry(ss.last()),
        ),
    decreases ss.len(),
{
    reveal_strlit("servers:");
    reveal_strlit("-");
    let s = ss.last();
    let prev = seq!["servers:"@] + server_lines(ss.drop_last());
    assert(seq!["servers:"@] + server_lines(ss) =~= prev + seq![url_line(s), server_desc_line(s)]);
    if ss.len() == 1 {
        assert(server_lines(ss.drop_last()) =~= Seq::<Seq<char>>::empty());
        assert(prev =~= seq!["servers:"@]);
        assert(prev =~= Seq::<Seq<char>>::empty().push("servers:"@));
        lemma_list_scan_push(Seq::<Seq<char>>::empty(), "servers:"@, "-"@);
        assert(list_scan(Seq::<Seq<char>>::empty(), "-"@) == (Seq::<Seq<char>>::empty(), Seq::<char>::empty()));
        assert(leading_spaces("servers:"@) == 0);
        assert(trim_start_spaces("servers:"@) =~= "servers:"@);
        lemma_not_prefix("servers:"@, "-"@);
        assert(list_scan(prev, "-"@) == (Seq::<Seq<char>>::empty(), Seq::<char>::empty()
            + with_newline("servers:"@)));
        assert(Seq::<char>::empty() + with_newline("servers:"@) =~= with_newline("servers:"@));
        lemma_server_list_step(prev, s);
        assert(ss.drop_last().map_values(|s: ServerModel| server_entry(s)) =~= Seq::<
            Seq<char>,
        >::empty());
        assert(Seq::<Seq<char>>::empty().push(with_newline("servers:"@)) =~= seq![
            with_newline("servers:"@),
        ] + ss.drop_last().map_values(|s: ServerModel| server_entry(s)));
    } else {
        lemma_server_list_scan(ss.drop_last());
        lemma_server_list_step(prev, s);
        let e = |s: ServerModel| server_entry(s);
        assert(ss.drop_last().drop_last().map_values(e).push(server_entry(ss.drop_last().last()))
            =~= ss.drop_last().map_values(e));
        assert(seq![with_newline("servers:"@)] + ss.drop_last().drop_last().map_values(e).push(
            server_entry(ss.drop_last().last()),
        ) =~= (seq![with_newline("servers:"@)] + ss.drop_last().drop_last().map_values(e)).push(
            server_entry(ss.drop_last().last()),
        ));
    }
}

/// Reading the entry of a server gives the server back.
proof fn lemma_server_entry_read(s: ServerModel)
    requires
        is_line_value(s.url),
        is_line_value(s.description),
    ensures
        server_from_yml(server_entry(s)) == s,
{
    reveal_strlit("url:");
    reveal_strlit("description:");
    reveal_strlit("description");
    let e1 = seq![' '] + "url:"@ + seq![' '] + s.url;
    let e2 = "description:"@ + seq![' '] + s.description;
    let q = seq![e1, e2];
    assert(q =~= Seq::<Seq<char>>::empty().push(e1).push(e2));
    lemma_lines_text_push(Seq::<Seq<char>>::empty(), e1);
    lemma_lines_text_push(Seq::<Seq<char>>::empty().push(e1), e2);
    assert(lines_text(Seq::<Seq<char>>::empty()) == Seq::<char>::empty());
    assert(lines_text(q) =~= server_entry(s));
    // both lines are line values
    assert(no_newline(seq![' '] + "url:"@ + seq![' ']));
    lemma_line_value_concat(seq![' '] + "url:"@ + seq![' '], s.url);
    assert(no_newline("description:"@ + seq![' ']));
    lemma_line_value_concat("description:"@ + seq![' '], s.description);
    assert(all_no_newline(q));
    lemma_lines_of_lines_text(q);
    // reading them
    lemma_server_fold_push(Seq::<Seq<char>>::empty(), e1);
    lemma_server_fold_push(Seq::<Seq<char>>::empty().push(e1), e2);
    lemma_key_line(seq![' '], "url:"@, s.url);
    lemma_key_line(Seq::<char>::empty(), "url:"@, s.url);
    assert(Seq::<char>::empty() + "url:"@ + seq![' '] + s.url =~= "url:"@ + seq![' '] + s.url);
    lemma_key_line(Seq::<char>::empty(), "description:"@, s.description);
    assert(Seq::<char>::empty() + e2 =~= e2);
    lemma_not_prefix(e2, "url:"@);
    assert(has_prefix(e2, "description"@)) by {
        assert(e2.subrange(0, 11) =~= "description"@);
    }
}

/// A line that changes no section of a document: it starts with none of
/// `openapi: `, `info`, `servers` and `paths:`.
pub(crate) open spec fn is_plain_line(l: Seq<char>) -> bool {
    &&& !has_prefix(l, "openapi: "@)
    &&& !has_prefix(l, "info"@)
    &&& !has_prefix(l, "servers"@)
    &&& !has_prefix(l, "paths:"@)
}

/// A plain text added to the section being read.
pub(crate) open spec fn add_plain(st: TopScan, t: Seq<char>) -> TopScan {
    if st.iter_info {
        TopScan { info: st.info + t, ..st }
    } else if st.iter_servers {
        TopScan { servers: st.servers + t, ..st }
    } else if st.iter_paths {
        TopScan { paths: st.paths + t, ..st }
    } else {
        st
    }
}

pub(crate) proof fn lemma_top_fold_push(ls: Seq<Seq<char>>, l: Seq<char>)
    ensures
        top_fold(ls.push(l)) == top_step(top_fold(ls), l),
{
    assert(ls.push(l).drop_last() =~= ls);
    assert(ls.push(l).last() == l);
}

/// Reading plain lines adds them to the section being read.
pub(crate) proof fn lemma_top_fold_plain(p: Seq<Seq<char>>, q: Seq<Seq<char>>)
    requires
        forall|i: int| 0 <= i < q.len() ==> is_plain_line(#[trigger] q[i]),
    ensures
        top_fold(p + q) == add_plain(top_fold(p), lines_text(q)),
    decreases q.len(),
{
    let st = top_fold(p);
    if q.len() == 0 {
        assert(p + q =~= p);
        assert(lines_text(q) == Seq::<char>::empty());
        assert(st.info + Seq::<char>::empty() =~= st.info);
        assert(st.servers + Seq::<char>::empty() =~= st.servers);
        assert(st.paths + Seq::<char>::empty() =~= st.paths);
    } else {
        let q2 = q.drop_last();
        assert forall|i: int| 0 <= i < q2.len() implies is_plain_line(#[trigger] q2[i]) by {
            assert(q2[i] == q[i]);
        }
        lemma_top_fold_plain(p, q2);
        assert(p + q =~= (p + q2).push(q.last()));
        lemma_top_fold_push(p + q2, q.last());
        assert(is_plain_line(q[q.len() - 1]));
        assert(q =~= q2.push(q.last()));
        lemma_lines_text_push(q2, q.last());
        let a = lines_text(q2);
        let b = with_newline(q.last());
        assert(st.info + a + b =~= st.info + (a + b));
        assert(st.servers + a + b =~= st.servers + (a + b));
        assert(st.paths + a + b =~= st.paths + (a + b));
    }
}

/// A line that starts with a space is plain.
pub(crate) proof fn lemma_indented_plain(l: Seq<char>)
    requires
        l.len() > 0,
        l[0] == ' ',
    ensures
        is_plain_line(l),
{
    reveal_strlit("openapi: ");
    reveal_strlit("info");
    reveal_strlit("servers");
    reveal_strlit("paths:");
    lemma_not_prefix(l, "openapi: "@);
    lemma_not_prefix(l, "info"@);
    lemma_not_prefix(l, "servers"@);
    lemma_not_prefix(l, "paths:"@);
}

/// The server lines of a document, or the empty line that stands between
/// `servers:` and `paths:` when there are no servers.
pub(crate) open spec fn server_block(ss: Seq<ServerModel>) -> Seq<Seq<char>> {
    if ss.len() == 0 {
        seq![Seq::<char>::empty()]
    } else {
        server_lines(ss)
    }
}

proof fn lemma_server_lines_shape(ss: Seq<ServerModel>)
    requires
        forall|i: int|
            0 <= i < ss.len() ==> is_line_value(#[trigger] ss[i].url) && is_line_value(
                ss[i].description,
            ),
    ensures
        all_line_values(server_lines(ss)),
        forall|i: int|
            0 <= i < server_lines(ss).len() ==> (#[trigger] server_lines(ss)[i]).len() > 0
                && server_lines(ss)[i][0] == ' ',
    decreases ss.len(),
{
    reveal_strlit("  - url: ");
    reveal_strlit("    description: ");
    if ss.len() > 0 {
        let s2 = ss.drop_last();
        assert forall|i: int| 0 <= i < s2.len() implies is_line_value(#[trigger] s2[i].url)
            && is_line_value(s2[i].description) by {
            assert(s2[i] == ss[i]);
        }
        lemma_server_lines_shape(s2);
        let s = ss.last();
        assert(is_line_value(ss[ss.len() - 1].url));
        assert(no_newline("  - url: "@));
        assert(no_newline("    description: "@));
        lemma_line_value_concat("  - url: "@, s.url);
        lemma_line_value_concat("    description: "@, s.description);
        let two = seq![url_line(s), server_desc_line(s)];
        assert(all_line_values(two));
        lemma_all_line_values_concat(server_lines(s2), two);
        let all = server_lines(ss);
        assert forall|i: int| 0 <= i < all.len() implies (#[trigger] all[i]).len() > 0 && all[i][0]
            == ' ' by {
            if i < server_lines(s2).len() {
                assert(all[i] == server_lines(s2)[i]);
            } else {
                assert(all[i] == two[i - server_lines(s2).len()]);
            }
        }
    }
}

/// The openapi version, info and servers of a document can each stand on a
/// line of their own (no line break in them, no carriage return at their end).
pub open spec fn plain_head(a: OpenApiModel) -> bool {
    &&& is_line_value(a.openapi)
    &&& is_line_value(a.info.title)
    &&& is_line_value(a.info.description)
    &&& is_line_value(a.info.version)
    &&& forall|i: int|
        0 <= i < a.servers.len() ==> is_line_value(#[trigger] a.servers[i].url) && is_line_value(
            a.servers[i].description,
        )
}

/// A document without paths whose values can each stand on a line of their
/// own.
pub open spec fn plain_document(a: OpenApiModel) -> bool {
    &&& a.paths.len() == 0
    &&& plain_head(a)
}

/// The lines that the writer produces for a document up to its `paths:` line.
pub(crate) open spec fn doc_lines(a: OpenApiModel) -> Seq<Seq<char>> {
    seq!["openapi: "@ + a.openapi] + info_parts(a.info) + seq!["servers:"@] + server_block(
        a.servers,
    ) + seq!["paths:"@]
}

/// The written text of a document is its lines up to `paths:`, each with a
/// line break, then the texts of its paths.
pub(crate) proof fn lemma_doc_text(a: OpenApiModel)
    ensures
        openapi_text(a) == lines_text(doc_lines(a)) + join_with(paths_text(a.paths), "\n"@),
{
    reveal_strlit("\n");
    reveal_strlit("\nservers:\n");
    reveal_strlit("\npaths:\n");
    reveal_strlit("servers:");
    reveal_strlit("paths:");
    let nl = seq!['\n'];
    let ss = a.servers;
    let l0 = "openapi: "@ + a.openapi;
    let parts = info_parts(a.info);
    let k_servers = "servers:"@;
    let k_paths = "paths:"@;
    let mid = server_block(ss);
    lemma_info_text_parts(a.info);
    lemma_lines_text_joined(parts);
    if ss.len() == 0 {
        assert(servers_text(ss) =~= Seq::<Seq<char>>::empty());
        lemma_lines_text_push(Seq::<Seq<char>>::empty(), Seq::<char>::empty());
        assert(seq![Seq::<char>::empty()] =~= Seq::<Seq<char>>::empty().push(Seq::<char>::empty()));
        assert(lines_text(mid) =~= join_with(servers_text(ss), nl) + nl);
    } else {
        lemma_server_lines_text(ss);
    }
    assert(lines_text(mid) == join_with(servers_text(ss), nl) + nl);
    lemma_lines_text_push(Seq::<Seq<char>>::empty(), l0);
    lemma_lines_text_push(Seq::<Seq<char>>::empty(), k_servers);
    lemma_lines_text_push(Seq::<Seq<char>>::empty(), k_paths);
    assert(seq![l0] =~= Seq::<Seq<char>>::empty().push(l0));
    assert(seq![k_servers] =~= Seq::<Seq<char>>::empty().push(k_servers));
    assert(seq![k_paths] =~= Seq::<Seq<char>>::empty().push(k_paths));
    assert(lines_text(Seq::<Seq<char>>::empty()) == Seq::<char>::empty());
    lemma_lines_text_concat(seq![l0], parts);
    lemma_lines_text_concat(seq![l0] + parts, seq![k_servers]);
    lemma_lines_text_concat(seq![l0] + parts + seq![k_servers], mid);
    lemma_lines_text_concat(seq![l0] + parts + seq![k_servers] + mid, seq![k_paths]);
    assert("\n"@ =~= nl);
    assert("\nservers:\n"@ =~= nl + k_servers + nl);
    assert("\npaths:\n"@ =~= nl + k_paths + nl);
    assert(openapi_text(a) =~= lines_text(doc_lines(a)) + join_with(paths_text(a.paths), "\n"@));
}

/// The lines of such a document hold no line break.
pub(crate) proof fn lemma_doc_line_values(a: OpenApiModel)
    requires
        plain_head(a),
    ensures
        all_line_values(doc_lines(a)),
{
    reveal_strlit("openapi: ");
    reveal_strlit("servers:");
    reveal_strlit("paths:");
    let l0 = "openapi: "@ + a.openapi;
    let parts = info_parts(a.info);
    let k_servers = "servers:"@;
    let k_paths = "paths:"@;
    let mid = server_block(a.servers);
    assert(no_newline("openapi: "@));
    lemma_line_value_concat("openapi: "@, a.openapi);
    lemma_info_parts_lines(a.info);
    assert(all_line_values(parts)) by {
        assert forall|i: int| 0 <= i < parts.len() implies is_line_value(#[trigger] parts[i]) by {
            if i == 0 {
            } else if i == 1 {
            } else if i == 2 {
            } else {
            }
        }
    }
    assert(all_line_values(seq![l0]));
    assert(all_line_values(seq![k_servers]));
    assert(all_line_values(seq![k_paths]));
    lemma_server_lines_shape(a.servers);
    assert(all_line_values(mid));
    lemma_all_line_values_concat(seq![l0], parts);
    lemma_all_line_values_concat(seq![l0] + parts, seq![k_servers]);
    lemma_all_line_values_concat(seq![l0] + parts + seq![k_servers], mid);
    lemma_all_line_values_concat(seq![l0] + parts + seq![k_servers] + mid, seq![k_paths]);
}

/// Reading the `openapi:` line and the info section.
proof fn lemma_doc_read_info(a: OpenApiModel)
    requires
        plain_head(a),
    ensures
        ({
            let t = top_fold(seq!["openapi: "@ + a.openapi] + info_parts(a.info));
            &&& t.openapi == a.openapi
            &&& t.info == lines_text(info_parts(a.info))
            &&& t.servers == Seq::<char>::empty()
            &&& t.paths == Seq::<char>::empty()
            &&& t.iter_info && !t.iter_servers && !t.iter_paths
        }),
{
    reveal_strlit("openapi: ");
    reveal_strlit("openapi:");
    reveal_strlit("info");
    let l0 = "openapi: "@ + a.openapi;
    let parts = info_parts(a.info);
    let head = parts[0];
    let empty = Seq::<Seq<char>>::empty();
    let t0 = top_fold(empty);
    lemma_top_fold_push(empty, l0);
    assert(seq![l0] =~= empty.push(l0));
    lemma_key_line(Seq::<char>::empty(), "openapi:"@, a.openapi);
    assert("openapi: "@ =~= "openapi:"@ + seq![' ']);
    assert(Seq::<char>::empty() + "openapi:"@ + seq![' '] + a.openapi =~= l0);
    assert(has_prefix(l0, "openapi: "@)) by {
        assert(l0.subrange(0, 9) =~= "openapi: "@);
    }
    assert(t0.openapi + a.openapi =~= a.openapi);
    let t1 = top_fold(seq![l0]);
    assert(t1.openapi == a.openapi && !t1.iter_info && !t1.iter_servers && !t1.iter_paths);
    assert(t1.info == Seq::<char>::empty() && t1.servers == Seq::<char>::empty());
    assert(t1.paths == Seq::<char>::empty());
    lemma_info_text_parts(a.info);
    lemma_top_fold_push(seq![l0], head);
    assert(seq![l0].push(head) =~= seq![l0, head]);
    lemma_not_prefix(head, "openapi: "@);
    assert(has_prefix(head, "info"@)) by {
        assert(head.subrange(0, 4) =~= "info"@);
    }
    let t2 = top_fold(seq![l0, head]);
    assert(t2.info =~= with_newline(head));
    assert(t2.iter_info && !t2.iter_servers && !t2.iter_paths && t2.openapi == a.openapi);
    let rest = parts.drop_first();
    assert forall|i: int| 0 <= i < rest.len() implies is_plain_line(#[trigger] rest[i]) by {
        assert(rest[i] == parts[i + 1]);
        lemma_indented_plain(parts[i + 1]);
    }
    lemma_top_fold_plain(seq![l0, head], rest);
    assert(seq![l0, head] + rest =~= seq![l0] + parts);
    assert(parts =~= seq![head] + rest);
    lemma_lines_text_concat(seq![head], rest);
    lemma_lines_text_push(empty, head);
    assert(seq![head] =~= empty.push(head));
}

/// Reading the `servers:` line, the server lines and the `paths:` line.
pub(crate) proof fn lemma_doc_read_rest(a: OpenApiModel)
    requires
        plain_head(a),
    ensures
        ({
            let t = top_fold(doc_lines(a));
            &&& t.openapi == a.openapi
            &&& t.info == lines_text(info_parts(a.info))
            &&& t.servers == with_newline("servers:"@) + lines_text(server_block(a.servers))
            &&& t.paths == with_newline("paths:"@)
            &&& !t.iter_info && !t.iter_servers && t.iter_paths
        }),
{
    reveal_strlit("openapi: ");
    reveal_strlit("info");
    reveal_strlit("servers");
    reveal_strlit("servers:");
    reveal_strlit("paths:");
    let ss = a.servers;
    let head = seq!["openapi: "@ + a.openapi] + info_parts(a.info);
    let k_servers = "servers:"@;
    let k_paths = "paths:"@;
    let mid = server_block(ss);
    lemma_doc_read_info(a);
    lemma_top_fold_push(head, k_servers);
    assert(head.push(k_servers) =~= head + seq![k_servers]);
    lemma_not_prefix(k_servers, "openapi: "@);
    lemma_not_prefix(k_servers, "info"@);
    assert(has_prefix(k_servers, "servers"@)) by {
        assert(k_servers.subrange(0, 7) =~= "servers"@);
    }
    let t4 = top_fold(head + seq![k_servers]);
    assert(t4.servers =~= with_newline(k_servers));
    assert(!t4.iter_info && t4.iter_servers && !t4.iter_paths);
    lemma_server_lines_shape(ss);
    assert forall|i: int| 0 <= i < mid.len() implies is_plain_line(#[trigger] mid[i]) by {
        if ss.len() == 0 {
            assert(mid[i] == Seq::<char>::empty());
        } else {
            lemma_indented_plain(mid[i]);
        }
    }
    lemma_top_fold_plain(head + seq![k_servers], mid);
    let t5 = top_fold(head + seq![k_servers] + mid);
    assert(t5.servers == with_newline(k_servers) + lines_text(mid));
    assert(!t5.iter_info && t5.iter_servers && !t5.iter_paths);
    lemma_top_fold_push(head + seq![k_servers] + mid, k_paths);
    assert((head + seq![k_servers] + mid).push(k_paths) =~= doc_lines(a));
    lemma_not_prefix(k_paths, "openapi: "@);
    lemma_not_prefix(k_paths, "info"@);
    lemma_not_prefix(k_paths, "servers"@);
    assert(has_prefix(k_paths, "paths:"@)) by {
        assert(k_paths.subrange(0, 6) =~= "paths:"@);
    }
    let t6 = top_fold(doc_lines(a));
    assert(t6.paths =~= with_newline(k_paths));
}

/// The servers section that the writer produces reads back as the servers.
pub(crate) proof fn lemma_doc_servers(ss: Seq<ServerModel>)
    requires
        forall|i: int|
            0 <= i < ss.len() ==> is_line_value(#[trigger] ss[i].url) && is_line_value(
                ss[i].description,
            ),
    ensures
        servers_from_yml(
            yml_list_by_separator(
                with_newline("servers:"@) + lines_text(server_block(ss)),
                "-"@,
            ),
        ) == ss,
{
    reveal_strlit("servers:");
    reveal_strlit("-");
    let k_servers = "servers:"@;
    let mid = server_block(ss);
    let empty = Seq::<Seq<char>>::empty();
    let text = with_newline(k_servers) + lines_text(mid);
    let sv = seq![k_servers] + mid;
    lemma_server_lines_shape(ss);
    lemma_lines_text_concat(seq![k_servers], mid);
    lemma_lines_text_push(empty, k_servers);
    assert(seq![k_servers] =~= empty.push(k_servers));
    assert(lines_text(empty) == Seq::<char>::empty());
    assert(lines_text(seq![k_servers]) =~= with_newline(k_servers));
    assert(text == lines_text(sv));
    assert(all_line_values(seq![k_servers]));
    assert(all_line_values(mid));
    lemma_all_line_values_concat(seq![k_servers], mid);
    lemma_lines_of_lines_text(sv);
    assert(lines_of(text) == sv);
    if ss.len() == 0 {
        assert(sv =~= empty.push(k_servers).push(Seq::<char>::empty()));
        lemma_list_scan_push(empty, k_servers, "-"@);
        lemma_list_scan_push(empty.push(k_servers), Seq::<char>::empty(), "-"@);
        assert(list_scan(empty, "-"@) == (empty, Seq::<char>::empty()));
        assert(leading_spaces(k_servers) == 0);
        assert(trim_start_spaces(k_servers) =~= k_servers);
        lemma_not_prefix(k_servers, "-"@);
        assert(trim_start_spaces(Seq::<char>::empty()) =~= Seq::<char>::empty());
        let sc = list_scan(sv, "-"@);
        assert(sc.0 == empty);
        assert(sc.1.len() > 0);
        assert(yml_list_by_separator(text, "-"@) =~= empty);
        assert(servers_from_yml(empty) =~= ss);
    } else {
        lemma_server_list_scan(ss);
        let e = |s: ServerModel| server_entry(s);
        let entries = ss.map_values(e);
        assert(ss.drop_last().map_values(e).push(server_entry(ss.last())) =~= entries);
        assert(server_entry(ss.last()).len() > 0);
        assert(yml_list_by_separator(text, "-"@) =~= entries);
        assert forall|i: int| 0 <= i < ss.len() implies #[trigger] servers_from_yml(entries)[i]
            == ss[i] by {
            lemma_server_entry_read(ss[i]);
        }
        assert(servers_from_yml(entries) =~= ss);
    }
}

/// A paths section with no entries reads back as no paths.
proof fn lemma_doc_no_paths()
    ensures
        yml_list_by_separator(with_newline("paths:"@), "/"@) == Seq::<Seq<char>>::empty(),
{
    reveal_strlit("paths:");
    reveal_strlit("/");
    let k_paths = "paths:"@;
    let empty = Seq::<Seq<char>>::empty();
    assert(all_line_values(seq![k_paths]));
    lemma_lines_of_lines_text(seq![k_paths]);
    lemma_lines_text_push(empty, k_paths);
    assert(seq![k_paths] =~= empty.push(k_paths));
    assert(lines_text(empty) == Seq::<char>::empty());
    assert(lines_text(seq![k_paths]) =~= with_newline(k_paths));
    lemma_list_scan_push(empty, k_paths, "/"@);
    assert(list_scan(empty, "/"@) == (empty, Seq::<char>::empty()));
    assert(leading_spaces(k_paths) == 0);
    assert(trim_start_spaces(k_paths) =~= k_paths);
    lemma_not_prefix(k_paths, "/"@);
    assert(yml_list_by_separator(with_newline(k_paths), "/"@) =~= empty);
}

/// Writing a document without paths and reading it back gives the same
/// document, when every value of it can stand on a line of its own.
proof fn lemma_document_round_trip_without_paths(a: OpenApiModel)
    requires
        plain_document(a),
    ensures
        openapi_from_yml(openapi_text(a)) == a,
{
    lemma_doc_text(a);
    assert(paths_text(a.paths) =~= Seq::<Seq<char>>::empty());
    assert(join_with(paths_text(a.paths), "\n"@) == Seq::<char>::empty());
    assert(openapi_text(a) =~= lines_text(doc_lines(a)));
    lemma_doc_line_values(a);
    lemma_lines_of_lines_text(doc_lines(a));
    lemma_doc_read_rest(a);
    let t = top_fold(doc_lines(a));
    lemma_info_parts_lines(a.info);
    lemma_lines_of_lines_text(info_parts(a.info));
    lemma_info_parts_read(a.info);
    assert(info_from_yml(t.info) == a.info);
    lemma_doc_servers(a.servers);
    lemma_doc_no_paths();
    assert(paths_from_yml(Seq::<Seq<char>>::empty()) =~= a.paths);
}

/// A document that reads back as itself once written: its version, info and
/// servers can each stand on a line of their own, and each of its paths reads
/// back as itself (see [`path_ok`]).
pub open spec fn document_ok(a: OpenApiModel) -> bool {
    &&& plain_head(a)
    &&& forall|i: int| 0 <= i < a.paths.len() ==> path_ok(#[trigger] a.paths[i])
}

/// The lines of the paths of a written document as the line splitter gives
/// them: when the last path has no methods the text ends with the line break
/// of its name line, and no empty line follows.
pub(crate) open spec fn split_path_lines(ps: Seq<PathModel>) -> Seq<Seq<char>> {
    if ps.last().methods.len() == 0 {
        paths_lines(ps).drop_last()
    } else {
        paths_lines(ps)
    }
}

/// The entries the list reader cuts for the paths of a written document.
pub(crate) open spec fn split_path_entries(ps: Seq<PathModel>) -> Seq<Seq<char>> {
    if ps.last().methods.len() == 0 {
        path_entries(ps.drop_last()).push(lines_text(seq![name_line(ps.last().path)]))
    } else {
        path_entries(ps)
    }
}

/// The lines of a written document with paths: its lines up to `paths:`,
/// then the written lines of its paths.
#[verifier::spinoff_prover]
#[verifier::rlimit(40)]
proof fn lemma_doc_all_lines(a: OpenApiModel)
    requires
        document_ok(a),
        a.paths.len() > 0,
    ensures
        lines_of(openapi_text(a)) == doc_lines(a) + split_path_lines(a.paths),
{
    reveal_strlit("\n");
    let ps = a.paths;
    let head = doc_lines(a);
    let pl = paths_lines(ps);
    let all = head + pl;
    lemma_doc_text(a);
    lemma_paths_lines(ps);
    lemma_lines_text_concat(head, pl);
    assert("\n"@ =~= seq!['\n']);
    assert(lines_text(all) =~= openapi_text(a) + seq!['\n']);
    lemma_lines_text_joined(all);
    lemma_cancel_newline(openapi_text(a), join_with(all, seq!['\n']));
    lemma_doc_line_values(a);
    lemma_all_line_values_concat(head, pl);
    assert(path_ok(ps[ps.len() - 1]));
    crate::round_trip::lemma_path_lines_facts(ps.last());
    assert(all.last() == pl.last());
    assert(pl.last() == path_lines(ps.last()).last());
    if ps.last().methods.len() > 0 {
        lemma_lines_of_joined(all);
    } else {
        let short = head + pl.drop_last();
        assert(pl.last() =~= Seq::<char>::empty());
        assert(all =~= short.push(Seq::<char>::empty()));
        lemma_lines_text_push(short, Seq::<char>::empty());
        assert(with_newline(Seq::<char>::empty()) =~= seq!['\n']);
        lemma_cancel_newline(openapi_text(a), lines_text(short));
        assert forall|i: int| 0 <= i < short.len() implies is_line_value(#[trigger] short[i]) by {
            assert(short[i] == all[i]);
        }
        lemma_lines_of_lines_text(short);
    }
}

/// An empty line changes no section of a document.
proof fn lemma_blank_plain()
    ensures
        is_plain_line(Seq::<char>::empty()),
{
    reveal_strlit("openapi: ");
    reveal_strlit("info");
    reveal_strlit("servers");
    reveal_strlit("paths:");
}

/// Reading the lines of a written document with paths: the paths section is
/// `paths:` and the lines of the paths, and it cuts into the paths' entries.
#[verifier::spinoff_prover]
#[verifier::rlimit(40)]
proof fn lemma_doc_paths_section(a: OpenApiModel)
    requires
        document_ok(a),
        a.paths.len() > 0,
    ensures
        ({
            let t = top_fold(doc_lines(a) + split_path_lines(a.paths));
            &&& t.openapi == a.openapi
            &&& t.info == lines_text(info_parts(a.info))
            &&& t.servers == with_newline("servers:"@) + lines_text(server_block(a.servers))
            &&& yml_list_by_separator(t.paths, "/"@) == split_path_entries(a.paths)
        }),
{
    reveal_strlit("paths:");
    let ps = a.paths;
    let head = doc_lines(a);
    let pl = split_path_lines(ps);
    lemma_paths_lines(ps);
    assert(path_ok(ps[ps.len() - 1]));
    crate::round_trip::lemma_path_lines_facts(ps.last());
    lemma_blank_plain();
    assert forall|i: int| 0 <= i < pl.len() implies is_plain_line(#[trigger] pl[i]) by {
        assert(pl[i] == paths_lines(ps)[i]);
        if pl[i].len() > 0 {
            lemma_indented_plain(pl[i]);
        } else {
            assert(pl[i] =~= Seq::<char>::empty());
        }
    }
    lemma_top_fold_plain(head, pl);
    lemma_doc_read_rest(a);
    let t = top_fold(head + pl);
    assert(t.paths == with_newline("paths:"@) + lines_text(pl));
    let sec = seq!["paths:"@] + pl;
    let e = Seq::<Seq<char>>::empty();
    lemma_lines_text_push(e, "paths:"@);
    assert(seq!["paths:"@] =~= e.push("paths:"@));
    assert(lines_text(e) == Seq::<char>::empty());
    lemma_lines_text_concat(seq!["paths:"@], pl);
    assert(Seq::<char>::empty() + with_newline("paths:"@) =~= with_newline("paths:"@));
    assert(lines_text(sec) == t.paths);
    assert(all_line_values(seq!["paths:"@]));
    assert(all_line_values(pl)) by {
        assert forall|i: int| 0 <= i < pl.len() implies is_line_value(#[trigger] pl[i]) by {
            assert(pl[i] == paths_lines(ps)[i]);
        }
    }
    lemma_all_line_values_concat(seq!["paths:"@], pl);
    lemma_lines_of_lines_text(sec);
    lemma_paths_read(ps);
    if ps.last().methods.len() > 0 {
        lemma_paths_list_scan(ps);
        let entries = path_entries(ps);
        assert(entries.drop_last().push(entries.last()) =~= entries);
        assert((seq![with_newline("paths:"@)] + entries.drop_last()).push(entries.last()) =~= seq![
            with_newline("paths:"@),
        ] + entries);
        assert(yml_list_by_separator(t.paths, "/"@) =~= entries);
    } else {
        let prev = ps.drop_last();
        let p = ps.last();
        assert forall|i: int| 0 <= i < prev.len() implies path_ok(#[trigger] prev[i]) by {
            assert(prev[i] == ps[i]);
        }
        lemma_paths_list_scan_to(prev, p);
        assert(paths_lines(ps) == paths_lines(prev) + path_lines(p));
        assert(sec =~= (seq!["paths:"@] + paths_lines(prev)).push("  /"@ + p.path + ":"@));
        let last = with_newline(name_line(p.path));
        let entries = path_entries(prev).push(lines_text(seq![name_line(p.path)]));
        lemma_lines_text_push(e, name_line(p.path));
        assert(seq![name_line(p.path)] =~= e.push(name_line(p.path)));
        assert(lines_text(seq![name_line(p.path)]) =~= last);
        assert((seq![with_newline("paths:"@)] + path_entries(prev)).push(last) =~= seq![
            with_newline("paths:"@),
        ] + entries);
        assert(yml_list_by_separator(t.paths, "/"@) =~= entries);
    }
}

/// Writing a document with paths and reading it back gives the same document.
#[verifier::spinoff_prover]
#[verifier::rlimit(40)]
proof fn lemma_document_round_trip_with_paths(a: OpenApiModel)
    requires
        document_ok(a),
        a.paths.len() > 0,
    ensures
        openapi_from_yml(openapi_text(a)) == a,
{
    lemma_doc_all_lines(a);
    lemma_doc_paths_section(a);
    lemma_paths_read(a.paths);
    assert(paths_from_yml(split_path_entries(a.paths)) == a.paths);
    lemma_info_parts_lines(a.info);
    lemma_lines_of_lines_text(info_parts(a.info));
    lemma_info_parts_read(a.info);
    lemma_doc_servers(a.servers);
}

/// Writing a document and reading it back gives the same document, when its
/// version, info and servers can each stand on a line of their own and each
/// of its paths reads back as itself: a path name without `:`, HTTP method
/// names, status codes of three digits, header names and content types that
/// look like no line the reader acts on, and header values without white
/// space at their end.
pub proof fn law_document_round_trip(a: OpenApiModel)
    requires
        document_ok(a),
    ensures
        openapi_from_yml(openapi_text(a)) == a,
{
    if a.paths.len() == 0 {
        lemma_document_round_trip_without_paths(a);
    } else {
        lemma_document_round_trip_with_paths(a);
    }
}

} // verus!
