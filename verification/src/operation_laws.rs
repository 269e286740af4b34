//! Laws that say what single operations of the library do, over all inputs:
//! which line gives the content type of a request body or a response, how
//! many entries a list is cut into, how the text of a path grows with one
//! more method, which operations of a path are listed, and how the example
//! bodies of several content entries add up.
use vstd::prelude::*;
use crate::text::{
    lines_text, lines_of, with_newline, trim_start_spaces, before_char, first_key_of_lines,
    first_yml_key_spec, after_key_scan, has_prefix, has_prefix_after_spaces, join_with,
    lemma_lines_of_lines_text, lemma_not_prefix, all_no_newline, no_trailing_cr, skip_first_line,
    yml_after_key,
};
use crate::laws::{is_line_value, all_line_values, lemma_lines_text_push};
use crate::fill_curl::{
    PathOperations, present_operations, entry_if, present_slots, slot_entry, ItemSlots,
    BodyContent, MediaModel, body_examples, entry_examples, content_header, str_debug_text,
    path_ops, url_ops,
};
use openapi3_parser::open_api::Operation;
use crate::round_trip::{kv, lemma_kv, is_status_code};

verus! {

// ---------------------------------------------------------------------------
// The content type: the key of the first non-empty line after `content:`
// ---------------------------------------------------------------------------
/// The key read from lines whose first line is not empty (leading spaces
/// dropped) is that line up to its first `:`, whatever lines follow.
pub proof fn law_first_key_is_first_line(l: Seq<char>, rest: Seq<Seq<char>>)
    requires
        trim_start_spaces(l).len() > 0,
    ensures
        first_key_of_lines(seq![l] + rest) == before_char(trim_start_spaces(l), ':'),
{
    assert((seq![l] + rest)[0] == l);
}

/// A line that is empty once its leading spaces are dropped is passed over
/// when the key is read.
pub proof fn law_first_key_skips_blank_line(l: Seq<char>, rest: Seq<Seq<char>>)
    requires
        trim_start_spaces(l).len() == 0,
    ensures
        first_key_of_lines(seq![l] + rest) == first_key_of_lines(rest),
{
    assert((seq![l] + rest)[0] == l);
    assert((seq![l] + rest).drop_first() =~= rest);
}

proof fn lemma_after_content_key(ys: Seq<Seq<char>>)
    ensures
        after_key_scan(seq!["content:"@] + ys, "content:"@) == (lines_text(ys), true),
    decreases ys.len(),
{
    reveal_strlit("content:");
    let k = "content:"@;
    if ys.len() == 0 {
        assert(seq![k] + ys =~= seq![k]);
        assert(seq![k].drop_last() =~= Seq::<Seq<char>>::empty());
        assert(trim_start_spaces(k) =~= k) by {
            assert(crate::text::leading_spaces(k) == 0);
        }
        assert(has_prefix(k, k)) by {
            assert(k.subrange(0, 8) =~= k);
        }
        assert(has_prefix_after_spaces(k, k));
        let e = Seq::<Seq<char>>::empty();
        assert(after_key_scan(e, k) == (Seq::<char>::empty(), false));
        assert(lines_text(ys) =~= Seq::<char>::empty());
        assert(seq![k].last() == k);
        assert(after_key_scan(seq![k], k) == (Seq::<char>::empty(), true));
    } else {
        lemma_after_content_key(ys.drop_last());
        assert((seq![k] + ys).drop_last() =~= seq![k] + ys.drop_last());
        assert((seq![k] + ys).last() == ys.last());
    }
}

/// The content type read for a request body is the key of the first line
/// after its `content:` line, whatever lines (such as `schema:`) follow.
pub proof fn law_body_content_type_is_first_key(l: Seq<char>, rest: Seq<Seq<char>>)
    requires
        trim_start_spaces(l).len() > 0,
        all_line_values(seq![l] + rest),
    ensures
        crate::yml::body_from_yml(lines_text(seq!["content:"@, l] + rest)).content_type
            == before_char(trim_start_spaces(l), ':'),
{
    reveal_strlit("content:");
    let ys = seq![l] + rest;
    let q = seq!["content:"@] + ys;
    assert(seq!["content:"@, l] + rest =~= q);
    assert(all_line_values(q)) by {
        assert forall|i: int| 0 <= i < q.len() implies is_line_value(#[trigger] q[i]) by {
            if i > 0 {
                assert(q[i] == ys[i - 1]);
            }
        }
    }
    lemma_lines_of_lines_text(q);
    lemma_after_content_key(ys);
    lemma_lines_of_lines_text(ys);
    law_first_key_is_first_line(l, rest);
}

proof fn lemma_response_after_content(ys: Seq<Seq<char>>)
    ensures
        crate::yml::response_fold(seq!["content:"@] + ys).content == lines_text(ys),
        crate::yml::response_fold(seq!["content:"@] + ys).reading_content,
    decreases ys.len(),
{
    reveal_strlit("content:");
    reveal_strlit("description:");
    let k = "content:"@;
    if ys.len() == 0 {
        assert(seq![k] + ys =~= seq![k]);
        assert(seq![k].drop_last() =~= Seq::<Seq<char>>::empty());
        assert(!crate::status_pattern::quoted_status(k));
        lemma_not_prefix(k, "description:"@);
        assert(has_prefix(k, k)) by {
            assert(k.subrange(0, 8) =~= k);
        }
        let e = Seq::<Seq<char>>::empty();
        assert(crate::yml::response_fold(e).content =~= Seq::<char>::empty());
        assert(!crate::yml::response_fold(e).reading_content);
        assert(lines_text(ys) =~= Seq::<char>::empty());
        assert(seq![k].last() == k);
    } else {
        lemma_response_after_content(ys.drop_last());
        assert((seq![k] + ys).drop_last() =~= seq![k] + ys.drop_last());
        assert((seq![k] + ys).last() == ys.last());
    }
}

/// The content type read for a response whose block starts with its
/// `content:` line is the key of the first line after it, whatever lines
/// follow.
pub proof fn law_response_content_type_is_first_key(l: Seq<char>, rest: Seq<Seq<char>>)
    requires
        trim_start_spaces(l).len() > 0,
        all_line_values(seq![l] + rest),
    ensures
        crate::yml::response_from_yml(lines_text(seq!["content:"@, l] + rest)).content_type
            == before_char(trim_start_spaces(l), ':'),
{
    reveal_strlit("content:");
    let ys = seq![l] + rest;
    let q = seq!["content:"@] + ys;
    assert(seq!["content:"@, l] + rest =~= q);
    assert(all_line_values(q)) by {
        assert forall|i: int| 0 <= i < q.len() implies is_line_value(#[trigger] q[i]) by {
            if i > 0 {
                assert(q[i] == ys[i - 1]);
            }
        }
    }
    lemma_lines_of_lines_text(q);
    lemma_response_after_content(ys);
    lemma_lines_of_lines_text(ys);
    law_first_key_is_first_line(l, rest);
}

// ---------------------------------------------------------------------------
// Lists: one entry per separator line
// ---------------------------------------------------------------------------
/// The number of lines of `ls` that start with `sep`.
pub open spec fn separator_lines(ls: Seq<Seq<char>>, sep: Seq<char>) -> nat
    decreases ls.len(),
{
    if ls.len() == 0 {
        0
    } else {
        separator_lines(ls.drop_last(), sep) + if has_prefix(ls.last(), sep) {
            1nat
        } else {
            0nat
        }
    }
}

/// The number of lines of `ls` that start with `sep` once their leading
/// spaces are dropped.
pub open spec fn indented_separator_lines(ls: Seq<Seq<char>>, sep: Seq<char>) -> nat
    decreases ls.len(),
{
    if ls.len() == 0 {
        0
    } else {
        indented_separator_lines(ls.drop_last(), sep) + if has_prefix(
            trim_start_spaces(ls.last()),
            sep,
        ) {
            1nat
        } else {
            0nat
        }
    }
}

/// Cutting lines into entries with the simpler reader closes one entry at
/// every line after the first that starts with the separator, and always
/// has an entry open after the first line.
pub proof fn law_simple_list_scan_count(ls: Seq<Seq<char>>, sep: Seq<char>)
    requires
        ls.len() > 0,
    ensures
        crate::open_api::list_scan(ls, sep).0.len() == separator_lines(ls.drop_first(), sep),
        crate::open_api::list_scan(ls, sep).1.len() > 0,
    decreases ls.len(),
{
    if ls.len() == 1 {
        assert(ls.drop_last() =~= Seq::<Seq<char>>::empty());
        assert(ls.drop_first() =~= Seq::<Seq<char>>::empty());
        assert(crate::open_api::list_scan(Seq::<Seq<char>>::empty(), sep) == (
            Seq::<Seq<char>>::empty(),
            Seq::<char>::empty(),
        ));
    } else {
        law_simple_list_scan_count(ls.drop_last(), sep);
        assert(ls.drop_first().drop_last() =~= ls.drop_last().drop_first());
        assert(ls.drop_first().last() == ls.last());
    }
}

/// The simpler reader reads one list entry per separator line after the
/// first line of the list's text (leading spaces dropped): a servers section
/// with `n` lines `- url: ...` gives `n` servers.
pub proof fn law_simple_list_entries_count(yml: Seq<char>, sep: Seq<char>)
    ensures
        crate::open_api::yml_list_by_separator(yml, sep).len() == separator_lines(
            skip_first_line(lines_of(join_with(crate::open_api::trimmed_lines(yml), seq!['\n']))),
            sep,
        ),
{
    let ls = lines_of(join_with(crate::open_api::trimmed_lines(yml), seq!['\n']));
    if ls.len() == 0 {
        let e = Seq::<Seq<char>>::empty();
        assert(crate::open_api::list_scan(ls, sep) == (e, Seq::<char>::empty()));
    } else {
        law_simple_list_scan_count(ls, sep);
    }
}

/// Cutting lines into entries closes one entry at every line after the first
/// that starts with the separator once its leading spaces are dropped, and
/// always has an entry open after the first line.
pub proof fn law_list_scan_count(ls: Seq<Seq<char>>, sep: Seq<char>)
    requires
        ls.len() > 0,
    ensures
        crate::yml::list_scan(ls, sep).0.len() == indented_separator_lines(ls.drop_first(), sep),
        crate::yml::list_scan(ls, sep).1.len() > 0,
    decreases ls.len(),
{
    if ls.len() == 1 {
        assert(ls.drop_last() =~= Seq::<Seq<char>>::empty());
        assert(ls.drop_first() =~= Seq::<Seq<char>>::empty());
        assert(crate::yml::list_scan(Seq::<Seq<char>>::empty(), sep) == (
            Seq::<Seq<char>>::empty(),
            Seq::<char>::empty(),
        ));
    } else {
        law_list_scan_count(ls.drop_last(), sep);
        assert(ls.drop_first().drop_last() =~= ls.drop_last().drop_first());
        assert(ls.drop_first().last() == ls.last());
    }
}

/// The reader reads one list entry per line after the first that starts with
/// the separator once its leading spaces are dropped: a servers section with
/// `n` lines `  - url: ...` gives `n` servers.
pub proof fn law_list_entries_count(yml: Seq<char>, sep: Seq<char>)
    ensures
        crate::yml::yml_list_by_separator(yml, sep).len() == indented_separator_lines(
            skip_first_line(lines_of(yml)),
            sep,
        ),
{
    let ls = lines_of(yml);
    if ls.len() == 0 {
        let e = Seq::<Seq<char>>::empty();
        assert(crate::yml::list_scan(ls, sep) == (e, Seq::<char>::empty()));
    } else {
        law_list_scan_count(ls, sep);
    }
}

// ---------------------------------------------------------------------------
// The text of a path: one more method starts on a new line
// ---------------------------------------------------------------------------
/// The simpler writer: the text of a path with one method is its name line
/// and the method's text.
pub proof fn law_simple_path_text_one_method(p: crate::open_api::PathModel, m: crate::open_api::MethodModel)
    requires
        p.methods == seq![m],
    ensures
        crate::open_api::path_text(p) == "  /"@ + p.path + ":\n"@ + crate::open_api::method_text(m),
{
    assert(crate::open_api::methods_text(p.methods) =~= seq![crate::open_api::method_text(m)]);
}

/// The simpler writer: one more method adds a line break and the method's
/// text at the end of the path's text.
pub proof fn law_simple_path_text_push(p: crate::open_api::PathModel, m: crate::open_api::MethodModel)
    requires
        p.methods.len() > 0,
    ensures
        crate::open_api::path_text(crate::open_api::PathModel { methods: p.methods.push(m), ..p })
            == crate::open_api::path_text(p) + seq!['\n'] + crate::open_api::method_text(m),
{
    reveal_strlit("\n");
    let q = crate::open_api::PathModel { methods: p.methods.push(m), ..p };
    let t = crate::open_api::methods_text(q.methods);
    assert(t.drop_last() =~= crate::open_api::methods_text(p.methods));
    assert(t.last() == crate::open_api::method_text(m));
    assert("\n"@ =~= seq!['\n']);
}

/// The writer: the text of a path with one method is its name line and the
/// method's text.
pub proof fn law_path_text_one_method(p: crate::yml::PathModel, m: crate::yml::MethodModel)
    requires
        p.methods == seq![m],
    ensures
        crate::yml::path_text(p) == "  /"@ + p.path + ":\n"@ + crate::yml::method_text(m),
{
    assert(crate::yml::methods_text(p.methods) =~= seq![crate::yml::method_text(m)]);
}

/// The writer: one more method adds a line break and the method's text at
/// the end of the path's text.
pub proof fn law_path_text_push(p: crate::yml::PathModel, m: crate::yml::MethodModel)
    requires
        p.methods.len() > 0,
    ensures
        crate::yml::path_text(crate::yml::PathModel { methods: p.methods.push(m), ..p })
            == crate::yml::path_text(p) + seq!['\n'] + crate::yml::method_text(m),
{
    reveal_strlit("\n");
    let q = crate::yml::PathModel { methods: p.methods.push(m), ..p };
    let t = crate::yml::methods_text(q.methods);
    assert(t.drop_last() =~= crate::yml::methods_text(p.methods));
    assert(t.last() == crate::yml::method_text(m));
    assert("\n"@ =~= seq!['\n']);
}

// ---------------------------------------------------------------------------
// The operations of a path: every present slot is listed
// ---------------------------------------------------------------------------
/// The names of the eight operation slots, in slot order.
pub open spec fn slot_names() -> Seq<Seq<char>> {
    seq!["get"@, "post"@, "put"@, "delete"@, "head"@, "patch"@, "trace"@, "options"@]
}

/// The operation in slot `i` (get, post, put, delete, head, patch, trace,
/// options) of a path.
pub open spec fn operation_slot<'a>(p: PathOperations<'a>, i: int) -> Option<&'a Operation> {
    if i == 0 {
        p.get
    } else if i == 1 {
        p.post
    } else if i == 2 {
        p.put
    } else if i == 3 {
        p.delete
    } else if i == 4 {
        p.head
    } else if i == 5 {
        p.patch
    } else if i == 6 {
        p.trace
    } else {
        p.options
    }
}

/// The number of filled slots among the first `n` slots of a path.
pub open spec fn filled_slots<'a>(p: PathOperations<'a>, n: int) -> nat
    decreases n,
{
    if n <= 0 {
        0
    } else {
        filled_slots(p, n - 1) + if operation_slot(p, n - 1) is Some {
            1nat
        } else {
            0nat
        }
    }
}

/// The operation in slot `i` of a filled slot is listed under its name, at
/// the place given by the filled slots before it.
#[verifier::spinoff_prover]
proof fn lemma_operation_listed<'a>(p: PathOperations<'a>, i: int)
    requires
        0 <= i < 8,
        operation_slot(p, i) is Some,
    ensures
        present_operations(p)[filled_slots(p, i) as int] == (
            slot_names()[i],
            operation_slot(p, i)->0,
        ),
{
    reveal_with_fuel(filled_slots, 9);
    let a1 = entry_if("get"@, p.get);
    let a2 = a1 + entry_if("post"@, p.post);
    let a3 = a2 + entry_if("put"@, p.put);
    let a4 = a3 + entry_if("delete"@, p.delete);
    let a5 = a4 + entry_if("head"@, p.head);
    let a6 = a5 + entry_if("patch"@, p.patch);
    let a7 = a6 + entry_if("trace"@, p.trace);
    let a8 = a7 + entry_if("options"@, p.options);
    assert(a8 == present_operations(p));
    let k = filled_slots(p, i) as int;
    if i == 0 {
        assert(a1[k] == a8[k]);
    } else if i == 1 {
        assert(a2[k] == a8[k]);
    } else if i == 2 {
        assert(a3[k] == a8[k]);
    } else if i == 3 {
        assert(a4[k] == a8[k]);
    } else if i == 4 {
        assert(a5[k] == a8[k]);
    } else if i == 5 {
        assert(a6[k] == a8[k]);
    } else if i == 6 {
        assert(a7[k] == a8[k]);
    }
}

/// The operations listed for a path are exactly one per filled slot: as many
/// as there are filled slots, the operation of each filled slot under the
/// name of its method, at the place given by the filled slots before it.
#[verifier::spinoff_prover]
pub proof fn law_every_present_operation_listed<'a>(p: PathOperations<'a>)
    ensures
        present_operations(p).len() == filled_slots(p, 8),
        forall|i: int|
            0 <= i < 8 && operation_slot(p, i) is Some ==> #[trigger] present_operations(p)[filled_slots(
                p,
                i,
            ) as int] == (slot_names()[i], operation_slot(p, i)->0),
{
    reveal_with_fuel(filled_slots, 9);
    assert forall|i: int|
        0 <= i < 8 && operation_slot(p, i) is Some implies #[trigger] present_operations(p)[filled_slots(
            p,
            i,
        ) as int] == (slot_names()[i], operation_slot(p, i)->0) by {
        lemma_operation_listed(p, i);
    }
}

/// The number of filled slots among the first `n` slots of an item.
pub open spec fn filled_item_slots(slots: ItemSlots, n: int) -> nat
    decreases n,
{
    if n <= 0 {
        0
    } else {
        filled_item_slots(slots, n - 1) + if slots[n - 1] is Some {
            1nat
        } else {
            0nat
        }
    }
}

/// The content of a filled slot of an item is listed under its name, at the
/// place given by the filled slots before it.
#[verifier::spinoff_prover]
proof fn lemma_slot_listed(slots: ItemSlots, i: int)
    requires
        0 <= i < 8,
        slots[i] is Some,
    ensures
        present_slots(slots)[filled_item_slots(slots, i) as int] == (slot_names()[i], slots[i]->0),
{
    reveal_with_fuel(filled_item_slots, 9);
    let a1 = slot_entry("get"@, slots[0]);
    let a2 = a1 + slot_entry("post"@, slots[1]);
    let a3 = a2 + slot_entry("put"@, slots[2]);
    let a4 = a3 + slot_entry("delete"@, slots[3]);
    let a5 = a4 + slot_entry("head"@, slots[4]);
    let a6 = a5 + slot_entry("patch"@, slots[5]);
    let a7 = a6 + slot_entry("trace"@, slots[6]);
    let a8 = a7 + slot_entry("options"@, slots[7]);
    assert(a8 == present_slots(slots));
    let k = filled_item_slots(slots, i) as int;
    if i == 0 {
        assert(a1[k] == a8[k]);
    } else if i == 1 {
        assert(a2[k] == a8[k]);
    } else if i == 2 {
        assert(a3[k] == a8[k]);
    } else if i == 3 {
        assert(a4[k] == a8[k]);
    } else if i == 4 {
        assert(a5[k] == a8[k]);
    } else if i == 5 {
        assert(a6[k] == a8[k]);
    } else if i == 6 {
        assert(a7[k] == a8[k]);
    }
}

/// The operations listed for a path item are exactly one per filled slot:
/// as many as there are filled slots, the content of each filled slot under
/// the name of its method, at the place given by the filled slots before it.
#[verifier::spinoff_prover]
pub proof fn law_every_present_slot_listed(slots: ItemSlots)
    ensures
        present_slots(slots).len() == filled_item_slots(slots, 8),
        forall|i: int|
            0 <= i < 8 && slots[i] is Some ==> #[trigger] present_slots(slots)[filled_item_slots(
                slots,
                i,
            ) as int] == (slot_names()[i], slots[i]->0),
{
    reveal_with_fuel(filled_item_slots, 9);
    assert forall|i: int|
        0 <= i < 8 && slots[i] is Some implies #[trigger] present_slots(slots)[filled_item_slots(
            slots,
            i,
        ) as int] == (slot_names()[i], slots[i]->0) by {
        lemma_slot_listed(slots, i);
    }
}

// ---------------------------------------------------------------------------
// Request bodies: the examples of every content entry
// ---------------------------------------------------------------------------
/// The example bodies of two runs of content entries are those of the first
/// run, then those of the second.
pub proof fn law_body_examples_concat(a: Seq<MediaModel>, b: Seq<MediaModel>)
    ensures
        body_examples(a + b) == body_examples(a) + body_examples(b),
    decreases b.len(),
{
    if b.len() == 0 {
        assert(a + b =~= a);
        assert(body_examples(b) =~= Seq::<Seq<char>>::empty());
        assert(body_examples(a) + body_examples(b) =~= body_examples(a));
    } else {
        law_body_examples_concat(a, b.drop_last());
        assert((a + b).drop_last() =~= a + b.drop_last());
        assert((a + b).last() == b.last());
        assert(body_examples(a + b) =~= body_examples(a) + body_examples(b));
    }
}

/// The example bodies of one content entry are its single example, then its
/// named examples.
pub proof fn law_body_examples_one(e: MediaModel)
    ensures
        body_examples(seq![e]) == (match e.example {
            Some(x) => seq![x],
            None => Seq::<Seq<char>>::empty(),
        }) + (match e.examples {
            Some(v) => v,
            None => Seq::<Seq<char>>::empty(),
        }),
{
    assert(seq![e].drop_last() =~= Seq::<MediaModel>::empty());
    assert(body_examples(Seq::<MediaModel>::empty()) =~= Seq::<Seq<char>>::empty());
    assert(seq![e].last() == e);
    assert(body_examples(seq![e]) =~= Seq::<Seq<char>>::empty() + entry_examples(e));
}

/// The `Content-Type` line names the content type of the last entry.
pub proof fn law_content_header_last(m: Seq<MediaModel>, e: MediaModel)
    ensures
        content_header(m.push(e)) == "Content-Type: "@ + str_debug_text(e.content_type),
{
    assert(m.push(e).last() == e);
}

// ---------------------------------------------------------------------------
// Method blocks: one block per method line
// ---------------------------------------------------------------------------
/// The number of lines of `ls` that open a method block for the reader.
pub open spec fn method_lines_count(ls: Seq<Seq<char>>) -> nat
    decreases ls.len(),
{
    if ls.len() == 0 {
        0
    } else {
        method_lines_count(ls.drop_last()) + if crate::yml::is_method_line(ls.last()) {
            1nat
        } else {
            0nat
        }
    }
}

/// The number of lines of `ls` that open a method block for the simpler
/// reader.
pub open spec fn simple_method_lines_count(ls: Seq<Seq<char>>) -> nat
    decreases ls.len(),
{
    if ls.len() == 0 {
        0
    } else {
        simple_method_lines_count(ls.drop_last()) + if crate::open_api::is_method_line(ls.last()) {
            1nat
        } else {
            0nat
        }
    }
}

/// Cutting the lines of a path into method blocks closes one block at every
/// line after the first that opens a method, and always has a block open
/// after the first line.
pub proof fn law_method_chunk_count(ls: Seq<Seq<char>>)
    requires
        ls.len() > 0,
    ensures
        crate::yml::method_chunk_scan(ls).0.len() == method_lines_count(ls.drop_first()),
        crate::yml::method_chunk_scan(ls).1.len() > 0,
    decreases ls.len(),
{
    if ls.len() == 1 {
        assert(ls.drop_last() =~= Seq::<Seq<char>>::empty());
        assert(ls.drop_first() =~= Seq::<Seq<char>>::empty());
        assert(crate::yml::method_chunk_scan(Seq::<Seq<char>>::empty()) == (
            Seq::<Seq<char>>::empty(),
            Seq::<char>::empty(),
        ));
    } else {
        law_method_chunk_count(ls.drop_last());
        assert(ls.drop_first().drop_last() =~= ls.drop_last().drop_first());
        assert(ls.drop_first().last() == ls.last());
    }
}

/// The simpler reader cuts the lines of a path into method blocks the same
/// way: one block closed at every line after the first that opens a method.
pub proof fn law_simple_method_chunk_count(ls: Seq<Seq<char>>)
    requires
        ls.len() > 0,
    ensures
        crate::open_api::method_chunk_scan(ls).0.len() == simple_method_lines_count(
            ls.drop_first(),
        ),
        crate::open_api::method_chunk_scan(ls).1.len() > 0,
    decreases ls.len(),
{
    if ls.len() == 1 {
        assert(ls.drop_last() =~= Seq::<Seq<char>>::empty());
        assert(ls.drop_first() =~= Seq::<Seq<char>>::empty());
        assert(crate::open_api::method_chunk_scan(Seq::<Seq<char>>::empty()) == (
            Seq::<Seq<char>>::empty(),
            Seq::<char>::empty(),
        ));
    } else {
        law_simple_method_chunk_count(ls.drop_last());
        assert(ls.drop_first().drop_last() =~= ls.drop_last().drop_first());
        assert(ls.drop_first().last() == ls.last());
    }
}

/// The number of method blocks of a path's text: one per line that opens a
/// method, plus one for the lines before the first such line when the text
/// does not start with one.
pub proof fn law_method_chunks_count(text: Seq<char>)
    ensures
        lines_of(text).len() > 0 ==> crate::yml::method_chunks(text).len() == method_lines_count(
            lines_of(text).drop_first(),
        ) + 1,
        lines_of(text).len() == 0 ==> crate::yml::method_chunks(text).len() == 0,
{
    let ls = lines_of(text);
    if ls.len() > 0 {
        law_method_chunk_count(ls);
    } else {
        assert(crate::yml::method_chunk_scan(ls) == (
            Seq::<Seq<char>>::empty(),
            Seq::<char>::empty(),
        ));
    }
}

// ---------------------------------------------------------------------------
// The simpler reader: responses and methods
// ---------------------------------------------------------------------------
proof fn lemma_simple_response_push(ls: Seq<Seq<char>>, l: Seq<char>)
    ensures
        crate::open_api::response_fold(ls.push(l)) == crate::open_api::response_step(
            crate::open_api::response_fold(ls),
            l,
        ),
{
    assert(ls.push(l).drop_last() =~= ls);
}

/// The simpler reader reads a response block made of its quoted status code,
/// its `description:` line and its `content:` line as that code, description
/// and content.
pub proof fn law_simple_response_read(code: Seq<char>, d: Seq<char>, c: Seq<char>)
    requires
        is_status_code(code),
        is_line_value(d),
        is_line_value(c),
    ensures
        crate::open_api::response_from_yml(
            lines_text(
                seq![seq!['"'] + code + seq!['"'], kv("description:"@, d), kv("content:"@, c)],
            ),
        ) == (crate::open_api::ResponseModel { code, description: d, content: c }),
{
    reveal_strlit("description:");
    reveal_strlit("content:");
    let c0 = seq!['"'] + code + seq!['"'];
    let c1 = kv("description:"@, d);
    let c2 = kv("content:"@, c);
    let e = Seq::<Seq<char>>::empty();
    let q = seq![c0, c1, c2];
    assert(q =~= e.push(c0).push(c1).push(c2));
    lemma_kv("description:"@, d);
    lemma_kv("content:"@, c);
    assert(is_line_value(c0));
    assert(all_line_values(q));
    lemma_lines_of_lines_text(q);
    lemma_simple_response_push(e, c0);
    lemma_simple_response_push(e.push(c0), c1);
    lemma_simple_response_push(e.push(c0).push(c1), c2);
    assert(crate::status_pattern::quoted_status(c0));
    assert(crate::status_pattern::quoted_status_code(c0) =~= code);
    lemma_not_prefix(c2, "description:"@);
    assert(c1[0] == 'd');
    assert(c2[0] == 'c');
}

proof fn lemma_simple_method_push(ls: Seq<Seq<char>>, l: Seq<char>)
    ensures
        crate::open_api::method_fold(ls.push(l)) == crate::open_api::method_step(
            crate::open_api::method_fold(ls),
            l,
        ),
{
    assert(ls.push(l).drop_last() =~= ls);
}

/// The simpler reader reads the summary and the description of a method
/// block from its `summary:` and `description:` lines, and no responses when
/// the block has no status line.
pub proof fn law_simple_method_fields(l0: Seq<char>, s: Seq<char>, d: Seq<char>)
    requires
        is_line_value(l0),
        is_line_value(s),
        is_line_value(d),
        !has_prefix(l0, "responses:"@),
        !crate::status_pattern::quoted_status(l0),
    ensures
        ({
            let m = crate::open_api::method_from_yml(
                lines_text(seq![l0, kv("summary:"@, s), kv("description:"@, d)]),
            );
            &&& m.summary == s
            &&& m.description == d
            &&& m.responses.len() == 0
        }),
{
    reveal_strlit("summary:");
    reveal_strlit("description:");
    reveal_strlit("description");
    reveal_strlit("responses:");
    let c1 = kv("summary:"@, s);
    let c2 = kv("description:"@, d);
    let e = Seq::<Seq<char>>::empty();
    let q = seq![l0, c1, c2];
    assert(q =~= e.push(l0).push(c1).push(c2));
    lemma_kv("summary:"@, s);
    lemma_kv("description:"@, d);
    assert(all_line_values(q));
    lemma_lines_of_lines_text(q);
    lemma_simple_method_push(e, l0);
    lemma_simple_method_push(e.push(l0), c1);
    lemma_simple_method_push(e.push(l0).push(c1), c2);
    lemma_not_prefix(c1, "responses:"@);
    lemma_not_prefix(c2, "responses:"@);
    lemma_not_prefix(c1, "description"@);
    lemma_not_prefix(c2, "summary:"@);
    assert(has_prefix(c2, "description"@)) by {
        assert(c2.subrange(0, 11) =~= "description"@);
    }
    assert(c1[0] == 's');
    assert(c2[0] == 'd');
    let st = crate::open_api::method_fold(q);
    assert(!st.in_responses);
    assert(st.res_list.len() == 0);
    assert(st.res_str.len() > 0);
    assert(crate::open_api::method_from_yml(lines_text(q)).responses =~= Seq::<
        crate::open_api::ResponseModel,
    >::empty());
}

// ---------------------------------------------------------------------------
// The report: the operations of several paths
// ---------------------------------------------------------------------------
/// The operations of two runs of paths are those of the first run, then
/// those of the second.
pub proof fn law_path_ops_concat(a: Seq<(Seq<char>, ItemSlots)>, b: Seq<(Seq<char>, ItemSlots)>)
    ensures
        path_ops(a + b) == path_ops(a) + path_ops(b),
    decreases b.len(),
{
    if b.len() == 0 {
        assert(a + b =~= a);
        assert(path_ops(a) + path_ops(b) =~= path_ops(a));
    } else {
        law_path_ops_concat(a, b.drop_last());
        assert((a + b).drop_last() =~= a + b.drop_last());
        assert((a + b).last() == b.last());
        assert(path_ops(a + b) =~= path_ops(a) + path_ops(b));
    }
}

/// The operations of one path are its filled slots, in slot order, each
/// with the path's URL: as many as the path has filled slots, the one of slot
/// `i` named after its method and holding that slot's request content.
pub proof fn law_path_ops_one(url: Seq<char>, slots: ItemSlots)
    ensures
        path_ops(seq![(url, slots)]).len() == filled_item_slots(slots, 8),
        forall|i: int|
            0 <= i < 8 && slots[i] is Some ==> #[trigger] path_ops(seq![(url, slots)])[filled_item_slots(
                slots,
                i,
            ) as int] == (slot_names()[i], url, slots[i]->0),
{
    let ps = seq![(url, slots)];
    assert(ps.drop_last() =~= Seq::<(Seq<char>, ItemSlots)>::empty());
    assert(path_ops(Seq::<(Seq<char>, ItemSlots)>::empty()) =~= Seq::<
        (Seq<char>, Seq<char>, BodyContent),
    >::empty());
    assert(ps.last() == (url, slots));
    assert(path_ops(ps) =~= url_ops((url, slots)));
    law_every_present_slot_listed(slots);
    assert forall|i: int|
        0 <= i < 8 && slots[i] is Some implies #[trigger] path_ops(ps)[filled_item_slots(
            slots,
            i,
        ) as int] == (slot_names()[i], url, slots[i]->0) by {
        reveal_with_fuel(filled_item_slots, 9);
        let k = filled_item_slots(slots, i) as int;
        assert(k < present_slots(slots).len()) by {
            // one case per slot, so that the count of filled slots unfolds
            if i < 4 {
                if i < 2 {
                } else {
                }
            } else if i < 6 {
            } else {
            }
        }
        assert(url_ops((url, slots))[k] == (present_slots(slots)[k].0, url, present_slots(slots)[k].1));
        assert(present_slots(slots)[filled_item_slots(slots, i) as int] == (
            slot_names()[i],
            slots[i]->0,
        ));
    }
}

} // verus!
