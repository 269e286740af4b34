//! Preparing requests from an OpenAPI document parsed by `openapi3_parser`:
//! which operations a path offers, which content type and example bodies an
//! operation's request body declares, and the report lines printed for them.
//!
//! The document is parsed by `serde_yaml` into `openapi3_parser`'s types; the
//! values the logic reads are handed over as the library's own types
//! ([`PathOperations`], [`MediaEntry`]).
use vstd::prelude::*;
use vstd::multiset::Multiset;
use openapi3_parser::open_api::{OpenApiSpec, Operation, PathItem};
use crate::text::{concat2, concat3, string_of, strings_view, join_with};

verus! {

#[verifier::external_type_specification]
#[verifier::external_body]
pub struct ExOpenApiSpec(OpenApiSpec);

#[verifier::external_type_specification]
#[verifier::external_body]
pub struct ExPathItem(PathItem);

#[verifier::external_type_specification]
#[verifier::external_body]
pub struct ExOperation(Operation);

#[verifier::external_type_specification]
#[verifier::external_body]
pub struct ExYamlError(serde_yaml::Error);

/// What the report reads of one content entry of a request body: its content
/// type, the `{:#?}` text of its single example, and the `{:#?}` texts of its
/// named examples (a map, so without order).
pub type MediaKey = (Seq<char>, Option<Seq<char>>, Option<Multiset<Seq<char>>>);

/// What the report reads of a request body: `None` when the operation has no
/// request body or the body no content, otherwise its content entries (a map,
/// so without order).
pub type BodyContent = Option<Multiset<MediaKey>>;

/// What the report reads of a path item: for each of get, post, put, delete,
/// head, patch, trace and options in turn, `None` when the item has no such
/// operation, otherwise the request body content of the operation.
pub type ItemSlots = Seq<Option<BodyContent>>;

/// The request body content of an `openapi3_parser` operation.
pub uninterp spec fn request_content(op: Operation) -> BodyContent;

/// The eight operation slots of an `openapi3_parser` path item.
pub uninterp spec fn item_operations(item: PathItem) -> ItemSlots;

/// The paths of an `openapi3_parser` document: `None` when it has no `paths`
/// map, otherwise its entries (URL and slots of the item; a map, so without
/// order).
pub uninterp spec fn spec_paths(spec: OpenApiSpec) -> Option<Multiset<(Seq<char>, ItemSlots)>>;

/// What `serde_yaml::from_str` makes of the text `yml` as an `openapi3_parser`
/// document: `None` when it fails, otherwise the paths of the document.
pub uninterp spec fn yaml_paths(yml: Seq<char>) -> Option<Option<Multiset<(Seq<char>, ItemSlots)>>>;

/// The text `format!("{:?}", s)` gives for a string slice `s`.
pub uninterp spec fn str_debug_text(s: Seq<char>) -> Seq<char>;

/// The text `format!("{:?}", v)` gives for a vector of strings `v`: `[`, the
/// debug texts of the strings separated by `, `, and `]`.
pub open spec fn string_list_debug_text(v: Seq<Seq<char>>) -> Seq<char> {
    seq!['['] + join_with(v.map_values(|x: Seq<char>| str_debug_text(x)), seq![',', ' ']) + seq![']']
}

/// The line printed when a document has no `paths` section.
pub open spec fn no_paths_line() -> Seq<char> {
    "Keine Pfade definiert"@
}

/// The operations of a path, one per HTTP method that `openapi3_parser`
/// knows.
pub struct PathOperations<'a> {
    pub get: Option<&'a Operation>,
    pub post: Option<&'a Operation>,
    pub put: Option<&'a Operation>,
    pub delete: Option<&'a Operation>,
    pub head: Option<&'a Operation>,
    pub patch: Option<&'a Operation>,
    pub trace: Option<&'a Operation>,
    pub options: Option<&'a Operation>,
}

/// One content type of a request body, with the texts of its examples.
pub struct MediaEntry {
    /// The content type, such as `application/json`.
    pub content_type: String,
    /// The pretty-printed text of the single `example`, when there is one.
    pub example: Option<String>,
    /// The pretty-printed texts of the named `examples`, when there are any.
    pub examples: Option<Vec<String>>,
}

/// What a [`MediaEntry`] holds.
pub struct MediaModel {
    pub content_type: Seq<char>,
    pub example: Option<Seq<char>>,
    pub examples: Option<Seq<Seq<char>>>,
}

impl View for MediaEntry {
    type V = MediaModel;

    open spec fn view(&self) -> MediaModel {
        MediaModel {
            content_type: self.content_type@,
            example: match self.example {
                Some(e) => Some(e@),
                None => None,
            },
            examples: match self.examples {
                Some(v) => Some(strings_view(v@)),
                None => None,
            },
        }
    }
}

/// The models of a sequence of media entries.
pub open spec fn media_view(v: Seq<MediaEntry>) -> Seq<MediaModel> {
    v.map_values(|e: MediaEntry| e@)
}

/// The model of a content entry, with its named examples taken without order.
pub open spec fn media_key(e: MediaModel) -> MediaKey {
    (e.content_type, e.example, match e.examples {
        Some(v) => Some(v.to_multiset()),
        None => None,
    })
}

/// The content entries that a list of entries holds, without order.
pub open spec fn media_keys(m: Seq<MediaModel>) -> Multiset<MediaKey> {
    m.map_values(|e: MediaModel| media_key(e)).to_multiset()
}

/// Whether an operation slot filled by the wrapper agrees with the slot of the
/// item: empty together, and otherwise holding the operation's content.
pub open spec fn slot_agrees(o: Option<&Operation>, slot: Option<BodyContent>) -> bool {
    match o {
        Some(x) => slot == Some(request_content(*x)),
        None => slot is None,
    }
}

/// The paths that a list of `(URL, item)` entries holds, without order.
pub open spec fn path_keys<'a>(v: Seq<(&'a String, &'a PathItem)>) -> Multiset<(Seq<char>, ItemSlots)> {
    v.map_values(|e: (&'a String, &'a PathItem)| (e.0@, item_operations(*e.1))).to_multiset()
}

// ---------------------------------------------------------------------------
// Trusted items
// ---------------------------------------------------------------------------
/// Calls `serde_yaml::from_str` to read `yml` as an `openapi3_parser`
/// document.  The contract claims that it succeeds exactly when
/// [`yaml_paths`] of the text is `Some`, and that the paths of the document
/// are what that name gives.
#[verifier::external_body]
fn parse_openapi_spec(yml: &str) -> (res: Result<OpenApiSpec, serde_yaml::Error>)
    ensures
        res is Ok <==> yaml_paths(yml@) is Some,
        res matches Ok(s) ==> yaml_paths(yml@) == Some(spec_paths(s)),
{
    serde_yaml::from_str(yml)
}

/// Hands out the entries of the document's `paths` map (`None` when the
/// document has no `paths`).  The map is a `HashMap`, so the order of the
/// entries is the order of its walk, which changes from process to process:
/// the contract claims only which entries come out, as a multiset.
#[verifier::external_body]
fn spec_path_items(spec: &OpenApiSpec) -> (res: Option<Vec<(&String, &PathItem)>>)
    ensures
        res is None <==> spec_paths(*spec) is None,
        res matches Some(v) ==> spec_paths(*spec) == Some(path_keys(v@)),
{
    spec.paths.as_ref().map(|paths| paths.iter().collect())
}

/// Hands out the eight operation fields of a `PathItem`, field by field.  The
/// contract claims that each field agrees with its slot in
/// [`item_operations`] of the item.
#[verifier::external_body]
fn path_item_operations<'a>(item: &'a PathItem) -> (ops: PathOperations<'a>)
    ensures
        slot_agrees(ops.get, item_operations(*item)[0]),
        slot_agrees(ops.post, item_operations(*item)[1]),
        slot_agrees(ops.put, item_operations(*item)[2]),
        slot_agrees(ops.delete, item_operations(*item)[3]),
        slot_agrees(ops.head, item_operations(*item)[4]),
        slot_agrees(ops.patch, item_operations(*item)[5]),
        slot_agrees(ops.trace, item_operations(*item)[6]),
        slot_agrees(ops.options, item_operations(*item)[7]),
{
    PathOperations {
        get: item.get.as_ref(),
        post: item.post.as_ref(),
        put: item.put.as_ref(),
        delete: item.delete.as_ref(),
        head: item.head.as_ref(),
        patch: item.patch.as_ref(),
        trace: item.trace.as_ref(),
        options: item.options.as_ref(),
    }
}

/// Hands out the content entries of an operation's request body (`None` when
/// it has no request body or no content), each with its content type and the
/// `{:#?}` texts of its examples.  The content and the named examples are
/// `HashMap`s, walked in an order that changes from process to process: the
/// contract claims only which entries and examples come out, as multisets,
/// namely those of [`request_content`] of the operation.
#[verifier::external_body]
fn request_media(op: &Operation) -> (res: Option<Vec<MediaEntry>>)
    ensures
        res is None <==> request_content(*op) is None,
        res matches Some(v) ==> request_content(*op) == Some(media_keys(media_view(v@))),
{
    op.request_body.as_ref().and_then(|body| body.content.as_ref()).map(
        |content| {
            content.iter().map(
                |(content_type, media)| MediaEntry {
                    content_type: content_type.clone(),
                    example: media.example.as_ref().map(|e| format!("{:#?}", e)),
                    examples: media.examples.as_ref().map(
                        |all| all.values().map(|e| format!("{:#?}", e)).collect(),
                    ),
                },
            ).collect()
        },
    )
}

/// `format!("{:?}", s)`: the contract claims that the text is
/// [`str_debug_text`] of `s`.
#[verifier::external_body]
fn debug_text(s: &str) -> (r: String)
    ensures
        r@ == str_debug_text(s@),
{
    format!("{:?}", s)
}

/// `format!("{:?}", v)` for a vector of strings: the contract claims the text
/// that `Debug` gives a list, [`string_list_debug_text`] of the strings.
#[verifier::external_body]
fn debug_list_text(v: &Vec<String>) -> (r: String)
    ensures
        r@ == string_list_debug_text(strings_view(v@)),
{
    format!("{:?}", v)
}

/// `(name, op)` when the operation is there, nothing otherwise.
pub open spec fn entry_if<'a>(name: Seq<char>, op: Option<&'a Operation>) -> Seq<
    (Seq<char>, &'a Operation),
> {
    match op {
        Some(o) => seq![(name, o)],
        None => seq![],
    }
}

/// The operations of a path with the names of their methods, in the order
/// get, post, put, delete, head, patch, trace, options.
pub open spec fn present_operations<'a>(p: PathOperations<'a>) -> Seq<(Seq<char>, &'a Operation)> {
    entry_if("get"@, p.get) + entry_if("post"@, p.post) + entry_if("put"@, p.put) + entry_if(
        "delete"@,
        p.delete,
    ) + entry_if("head"@, p.head) + entry_if("patch"@, p.patch) + entry_if("trace"@, p.trace)
        + entry_if("options"@, p.options)
}

/// The names and operations of a list of `(name, operation)` pairs.
pub open spec fn named_operations_view<'a>(v: Seq<(&'static str, &'a Operation)>) -> Seq<
    (Seq<char>, &'a Operation),
> {
    v.map_values(|e: (&'static str, &'a Operation)| (e.0@, e.1))
}

/// Appends `(name, op)` when the operation is there.
fn push_if<'a>(
    operations: &mut Vec<(&'static str, &'a Operation)>,
    name: &'static str,
    op: Option<&'a Operation>,
)
    ensures
        named_operations_view(final(operations)@) == named_operations_view(old(operations)@)
            + entry_if(name@, op),
{
    let ghost prev = operations@;
    if let Some(o) = op {
        operations.push((name, o));
    }
    proof {
        assert(named_operations_view(operations@) =~= named_operations_view(prev) + entry_if(
            name@,
            op,
        ));
    }
}

/// The operations a path offers, each with the name of its method, in the
/// order get, post, put, delete, head, patch, trace, options.
pub fn extract_methods<'a>(item: &PathOperations<'a>) -> (r: Vec<(&'static str, &'a Operation)>)
    ensures
        named_operations_view(r@) == present_operations(*item),
{
    let mut operations: Vec<(&'static str, &'a Operation)> = Vec::new();
    proof {
        assert(named_operations_view(operations@) =~= Seq::<(Seq<char>, &'a Operation)>::empty());
    }
    push_if(&mut operations, "get", item.get);
    push_if(&mut operations, "post", item.post);
    push_if(&mut operations, "put", item.put);
    push_if(&mut operations, "delete", item.delete);
    push_if(&mut operations, "head", item.head);
    push_if(&mut operations, "patch", item.patch);
    push_if(&mut operations, "trace", item.trace);
    push_if(&mut operations, "options", item.options);
    proof {
        assert(named_operations_view(operations@) =~= present_operations(*item));
    }
    operations
}

/// `(name, content)` when the slot holds an operation, nothing otherwise.
pub open spec fn slot_entry(name: Seq<char>, slot: Option<BodyContent>) -> Seq<(Seq<char>, BodyContent)> {
    match slot {
        Some(c) => seq![(name, c)],
        None => seq![],
    }
}

/// The operations of a path item's slots, each with the name of its method
/// and the content of its request body, in the order get, post, put, delete,
/// head, patch, trace, options.
pub open spec fn present_slots(slots: ItemSlots) -> Seq<(Seq<char>, BodyContent)> {
    slot_entry("get"@, slots[0]) + slot_entry("post"@, slots[1]) + slot_entry("put"@, slots[2])
        + slot_entry("delete"@, slots[3]) + slot_entry("head"@, slots[4]) + slot_entry(
        "patch"@,
        slots[5],
    ) + slot_entry("trace"@, slots[6]) + slot_entry("options"@, slots[7])
}

/// The names of a list of named operations, each with the content of its
/// request body.
pub open spec fn operations_content<'a>(v: Seq<(Seq<char>, &'a Operation)>) -> Seq<
    (Seq<char>, BodyContent),
> {
    v.map_values(|e: (Seq<char>, &'a Operation)| (e.0, request_content(*e.1)))
}

proof fn lemma_operations_content_concat<'a>(
    a: Seq<(Seq<char>, &'a Operation)>,
    b: Seq<(Seq<char>, &'a Operation)>,
)
    ensures
        operations_content(a + b) == operations_content(a) + operations_content(b),
{
    assert(operations_content(a + b) =~= operations_content(a) + operations_content(b));
}

proof fn lemma_entry_content<'a>(name: Seq<char>, o: Option<&'a Operation>, slot: Option<BodyContent>)
    requires
        slot_agrees(o, slot),
    ensures
        operations_content(entry_if(name, o)) == slot_entry(name, slot),
{
    assert(operations_content(entry_if(name, o)) =~= slot_entry(name, slot));
}

/// The operations of a path item of `openapi3_parser`, as [`extract_methods`]
/// lists them: the operations the item holds, in the order get, post, put,
/// delete, head, patch, trace, options.
pub fn extract_item_methods(item: &PathItem) -> (r: Vec<(&'static str, &Operation)>)
    ensures
        operations_content(named_operations_view(r@)) == present_slots(item_operations(*item)),
{
    let ops = path_item_operations(item);
    let r = extract_methods(&ops);
    proof {
        let sl = item_operations(*item);
        lemma_entry_content("get"@, ops.get, sl[0]);
        lemma_entry_content("post"@, ops.post, sl[1]);
        lemma_entry_content("put"@, ops.put, sl[2]);
        lemma_entry_content("delete"@, ops.delete, sl[3]);
        lemma_entry_content("head"@, ops.head, sl[4]);
        lemma_entry_content("patch"@, ops.patch, sl[5]);
        lemma_entry_content("trace"@, ops.trace, sl[6]);
        lemma_entry_content("options"@, ops.options, sl[7]);
        let a1 = entry_if("get"@, ops.get);
        let a2 = a1 + entry_if("post"@, ops.post);
        let a3 = a2 + entry_if("put"@, ops.put);
        let a4 = a3 + entry_if("delete"@, ops.delete);
        let a5 = a4 + entry_if("head"@, ops.head);
        let a6 = a5 + entry_if("patch"@, ops.patch);
        let a7 = a6 + entry_if("trace"@, ops.trace);
        lemma_operations_content_concat(a1, entry_if("post"@, ops.post));
        lemma_operations_content_concat(a2, entry_if("put"@, ops.put));
        lemma_operations_content_concat(a3, entry_if("delete"@, ops.delete));
        lemma_operations_content_concat(a4, entry_if("head"@, ops.head));
        lemma_operations_content_concat(a5, entry_if("patch"@, ops.patch));
        lemma_operations_content_concat(a6, entry_if("trace"@, ops.trace));
        lemma_operations_content_concat(a7, entry_if("options"@, ops.options));
        assert(named_operations_view(r@) == present_operations(ops));
    }
    r
}

// ---------------------------------------------------------------------------
// Request bodies
// ---------------------------------------------------------------------------
/// The `Content-Type` line for the request body: empty without content,
/// otherwise built from the last content type.
pub open spec fn content_header(entries: Seq<MediaModel>) -> Seq<char> {
    if entries.len() == 0 {
        seq![]
    } else {
        "Content-Type: "@ + str_debug_text(entries.last().content_type)
    }
}

/// The example texts of one content entry: its single example first, then
/// its named examples.
pub open spec fn entry_examples(e: MediaModel) -> Seq<Seq<char>> {
    let single = match e.example {
        Some(x) => seq![x],
        None => seq![],
    };
    let named = match e.examples {
        Some(v) => v,
        None => seq![],
    };
    single + named
}

/// The example texts of all content entries, entry after entry.
pub open spec fn body_examples(entries: Seq<MediaModel>) -> Seq<Seq<char>>
    decreases entries.len(),
{
    if entries.len() == 0 {
        seq![]
    } else {
        body_examples(entries.drop_last()) + entry_examples(entries.last())
    }
}

/// The `Content-Type` line and the example bodies of a request body's
/// content entries.
pub fn body_from_media(entries: &Vec<MediaEntry>) -> (r: (String, Vec<String>))
    ensures
        r.0@ == content_header(media_view(entries@)),
        strings_view(r.1@) == body_examples(media_view(entries@)),
{
    let ghost ev = media_view(entries@);
    let mut header = String::new();
    let mut body: Vec<String> = Vec::new();
    let mut i: usize = 0;
    proof {
        assert(strings_view(body@) =~= Seq::<Seq<char>>::empty());
    }
    while i < entries.len()
        invariant
            i <= entries@.len(),
            ev == media_view(entries@),
            ev.len() == entries@.len(),
            header@ == content_header(ev.take(i as int)),
            strings_view(body@) == body_examples(ev.take(i as int)),
        decreases entries@.len() - i,
    {
        let entry = &entries[i];
        proof {
            assert(ev.take(i + 1).drop_last() =~= ev.take(i as int));
            assert(ev.take(i + 1).last() == entry@);
        }
        header = concat2("Content-Type: ", debug_text(entry.content_type.as_str()).as_str());
        let ghost before = strings_view(body@);
        match &entry.example {
            Some(example) => {
                body.push(example.clone());
            },
            None => {},
        }
        let ghost mid = strings_view(body@);
        match &entry.examples {
            Some(examples) => {
                let mut j: usize = 0;
                while j < examples.len()
                    invariant
                        j <= examples@.len(),
                        strings_view(body@) == mid + strings_view(examples@).take(j as int),
                    decreases examples@.len() - j,
                {
                    let ghost prev = body@;
                    body.push(examples[j].clone());
                    proof {
                        assert(strings_view(body@) =~= strings_view(prev).push(examples@[j as int]@));
                        assert(strings_view(examples@).take(j + 1) =~= strings_view(examples@).take(
                            j as int,
                        ).push(examples@[j as int]@));
                    }
                    j += 1;
                }
                proof {
                    assert(strings_view(examples@).take(examples@.len() as int) =~= strings_view(
                        examples@,
                    ));
                }
            },
            None => {},
        }
        proof {
            assert(strings_view(body@) =~= before + entry_examples(entry@));
        }
        i += 1;
    }
    proof {
        assert(ev.take(entries@.len() as int) =~= ev);
    }
    (header, body)
}

/// Whether `header` and `bodies` are the `Content-Type` line and the example
/// bodies of a request body with the content `c`: both empty without content,
/// otherwise those of some ordering of its content entries (and of the named
/// examples within each entry).
pub open spec fn is_body_of(header: Seq<char>, bodies: Seq<Seq<char>>, c: BodyContent) -> bool {
    match c {
        None => header.len() == 0 && bodies.len() == 0,
        Some(ms) => exists|m: Seq<MediaModel>|
            #[trigger] media_keys(m) == ms && header == content_header(m) && bodies
                == body_examples(m),
    }
}

/// The `Content-Type` line and the example bodies of an operation's request
/// body.  The content entries and named examples come from `HashMap` walks,
/// so their order is that of some ordering of the body's content.
pub fn extract_bdoy(method: &Operation) -> (r: (String, Vec<String>))
    ensures
        is_body_of(r.0@, strings_view(r.1@), request_content(*method)),
{
    match request_media(method) {
        Some(entries) => {
            let r = body_from_media(&entries);
            proof {
                assert(media_keys(media_view(entries@)) == request_content(*method)->0);
            }
            r
        },
        None => {
            let r = (String::new(), Vec::new());
            proof {
                assert(strings_view(r.1@) =~= Seq::<Seq<char>>::empty());
            }
            r
        },
    }
}

// ---------------------------------------------------------------------------
// The report
// ---------------------------------------------------------------------------
/// The lines printed for one operation: `method: path`, the `Content-Type`
/// line, the list of example bodies, and an empty line.
pub open spec fn operation_lines(
    method: Seq<char>,
    path_url: Seq<char>,
    header: Seq<char>,
    body: Seq<Seq<char>>,
) -> Seq<Seq<char>> {
    seq![method + ": "@ + path_url, header, string_list_debug_text(body), seq![]]
}

/// The lines printed for one operation.
pub fn describe_operation(method: &str, path_url: &str, header: &String, body: &Vec<String>) -> (r:
    Vec<String>)
    ensures
        r@.len() == 4,
        strings_view(r@) == operation_lines(method@, path_url@, header@, strings_view(body@)),
{
    let mut r: Vec<String> = Vec::new();
    r.push(concat3(method, ": ", path_url));
    r.push(header.clone());
    r.push(debug_list_text(body));
    r.push(String::new());
    proof {
        assert(strings_view(r@) =~= operation_lines(method@, path_url@, header@, strings_view(
            body@,
        )));
    }
    r
}

/// The operations of a path, each with its method name, the path's URL and
/// the content of its request body, in the order get, post, put, delete,
/// head, patch, trace, options.
pub open spec fn url_ops(p: (Seq<char>, ItemSlots)) -> Seq<(Seq<char>, Seq<char>, BodyContent)> {
    present_slots(p.1).map_values(|e: (Seq<char>, BodyContent)| (e.0, p.0, e.1))
}

/// The operations of the paths `ps`, path after path.
pub open spec fn path_ops(ps: Seq<(Seq<char>, ItemSlots)>) -> Seq<(Seq<char>, Seq<char>, BodyContent)>
    decreases ps.len(),
{
    if ps.len() == 0 {
        seq![]
    } else {
        path_ops(ps.drop_last()) + url_ops(ps.last())
    }
}

/// Whether the `k`-th group of four lines of `ls` is what is printed for the
/// operation `op` (method name, URL, request body content): `method: URL`,
/// the `Content-Type` line and the printed list of the example bodies of its
/// request body, and an empty line.
pub open spec fn group_of(
    ls: Seq<Seq<char>>,
    k: int,
    op: (Seq<char>, Seq<char>, BodyContent),
) -> bool {
    &&& ls[4 * k] == op.0 + ": "@ + op.1
    &&& exists|bodies: Seq<Seq<char>>|
        is_body_of(ls[4 * k + 1], bodies, op.2) && #[trigger] string_list_debug_text(bodies)
            == ls[4 * k + 2]
    &&& ls[4 * k + 3] == Seq::<char>::empty()
}

/// Whether `ls` is made of one group of four lines for each operation of
/// `ops`, in that order.
pub open spec fn report_lines_of(
    ls: Seq<Seq<char>>,
    ops: Seq<(Seq<char>, Seq<char>, BodyContent)>,
) -> bool {
    &&& ls.len() == 4 * ops.len()
    &&& forall|k: int| 0 <= k < ops.len() ==> #[trigger] group_of(ls, k, ops[k])
}

/// Whether `ls` is the report of a document with the paths `paths`: the single
/// line "Keine Pfade definiert" when it has no `paths` map, otherwise the
/// groups of the operations of its paths, the paths taken in some order (the
/// map's walk), the operations of each in method order.
pub open spec fn is_report_of(
    paths: Option<Multiset<(Seq<char>, ItemSlots)>>,
    ls: Seq<Seq<char>>,
) -> bool {
    match paths {
        None => ls == seq![no_paths_line()],
        Some(ms) => exists|ps: Seq<(Seq<char>, ItemSlots)>|
            #[trigger] ps.to_multiset() == ms && report_lines_of(ls, path_ops(ps)),
    }
}

/// One more group of four lines in a report.
proof fn lemma_report_push(
    ls: Seq<Seq<char>>,
    ops: Seq<(Seq<char>, Seq<char>, BodyContent)>,
    lv: Seq<Seq<char>>,
    op: (Seq<char>, Seq<char>, BodyContent),
)
    requires
        report_lines_of(ls, ops),
        lv.len() == 4,
        group_of(lv, 0, op),
    ensures
        report_lines_of(ls + lv, ops.push(op)),
{
    let now = ls + lv;
    let ops2 = ops.push(op);
    assert forall|k: int| 0 <= k < ops2.len() implies #[trigger] group_of(now, k, ops2[k]) by {
        if k < ops.len() {
            assert(group_of(ls, k, ops[k]));
            assert(ops2[k] == ops[k]);
            assert(now[4 * k] == ls[4 * k]);
            assert(now[4 * k + 1] == ls[4 * k + 1]);
            assert(now[4 * k + 2] == ls[4 * k + 2]);
            assert(now[4 * k + 3] == ls[4 * k + 3]);
        } else {
            assert(k == ops.len());
            assert(ops2[k] == op);
            assert(now[4 * k] == lv[0]);
            assert(now[4 * k + 1] == lv[1]);
            assert(now[4 * k + 2] == lv[2]);
            assert(now[4 * k + 3] == lv[3]);
        }
    }
}

proof fn lemma_path_ops_take(ps: Seq<(Seq<char>, ItemSlots)>, i: int)
    requires
        0 <= i < ps.len(),
    ensures
        path_ops(ps.take(i + 1)) == path_ops(ps.take(i)) + url_ops(ps[i]),
{
    assert(ps.take(i + 1).drop_last() =~= ps.take(i));
    assert(ps.take(i + 1).last() == ps[i]);
}

/// The lines printed for a parsed document: for each path and each of its
/// operations, the lines of [`describe_operation`]; or the single line
/// "Keine Pfade definiert" when the document has no paths.  The paths come
/// from a `HashMap` walk, in an order that changes from run to run.
pub fn request_report(spec: &OpenApiSpec) -> (r: Vec<String>)
    ensures
        is_report_of(spec_paths(*spec), strings_view(r@)),
{
    let mut report: Vec<String> = Vec::new();
    proof {
        assert(strings_view(report@) =~= Seq::<Seq<char>>::empty());
    }
    match spec_path_items(spec) {
        Some(paths) => {
            let ghost ps = paths@.map_values(
                |e: (&String, &PathItem)| (e.0@, item_operations(*e.1)),
            );
            proof {
                assert(path_ops(ps.take(0)) =~= Seq::<(Seq<char>, Seq<char>, BodyContent)>::empty());
            }
            let mut i: usize = 0;
            while i < paths.len()
                invariant
                    i <= paths@.len(),
                    ps == paths@.map_values(
                        |e: (&String, &PathItem)| (e.0@, item_operations(*e.1)),
                    ),
                    report_lines_of(strings_view(report@), path_ops(ps.take(i as int))),
                decreases paths@.len() - i,
            {
                let (path_url, path_item) = paths[i];
                let methods = extract_item_methods(path_item);
                let ghost cur = url_ops(ps[i as int]);
                let ghost before_path = path_ops(ps.take(i as int));
                proof {
                    assert(ps[i as int] == (path_url@, item_operations(*path_item)));
                    assert(cur.take(0) =~= Seq::<(Seq<char>, Seq<char>, BodyContent)>::empty());
                    assert(before_path + cur.take(0) =~= before_path);
                }
                let mut j: usize = 0;
                while j < methods.len()
                    invariant
                        j <= methods@.len(),
                        cur == url_ops((path_url@, item_operations(*path_item))),
                        operations_content(named_operations_view(methods@)) == present_slots(
                            item_operations(*path_item),
                        ),
                        report_lines_of(strings_view(report@), before_path + cur.take(j as int)),
                    decreases methods@.len() - j,
                {
                    let (name, op) = methods[j];
                    let (header, body) = extract_bdoy(op);
                    let lines = describe_operation(name, path_url.as_str(), &header, &body);
                    let ghost prev = strings_view(report@);
                    let mut k: usize = 0;
                    while k < lines.len()
                        invariant
                            k <= lines@.len(),
                            lines@.len() == 4,
                            strings_view(report@) == prev + strings_view(lines@).take(k as int),
                        decreases lines@.len() - k,
                    {
                        let ghost before = report@;
                        report.push(lines[k].clone());
                        proof {
                            assert(strings_view(report@) =~= strings_view(before).push(
                                lines@[k as int]@,
                            ));
                            assert(strings_view(lines@).take(k + 1) =~= strings_view(lines@).take(
                                k as int,
                            ).push(lines@[k as int]@));
                        }
                        k += 1;
                    }
                    proof {
                        let lv = strings_view(lines@);
                        assert(lv.take(4) =~= lv);
                        let nv = named_operations_view(methods@);
                        let sl = present_slots(item_operations(*path_item));
                        assert(operations_content(nv)[j as int] == (
                            methods@[j as int].0@,
                            request_content(*methods@[j as int].1),
                        ));
                        assert(cur.len() == methods@.len());
                        let op3 = cur[j as int];
                        assert(op3 == (name@, path_url@, request_content(*op)));
                        assert(string_list_debug_text(strings_view(body@)) == lv[2]);
                        assert(group_of(lv, 0, op3));
                        lemma_report_push(prev, before_path + cur.take(j as int), lv, op3);
                        assert((before_path + cur.take(j as int)).push(op3) =~= before_path
                            + cur.take(j + 1));
                    }
                    j += 1;
                }
                proof {
                    assert(cur.len() == methods@.len());
                    assert(cur.take(j as int) =~= cur);
                    lemma_path_ops_take(ps, i as int);
                }
                i += 1;
            }
            proof {
                assert(ps.take(paths@.len() as int) =~= ps);
                assert(ps.to_multiset() == path_keys(paths@));
            }
        },
        None => {
            report.push(string_of("Keine Pfade definiert"));
            proof {
                assert(strings_view(report@) =~= seq![no_paths_line()]);
            }
        },
    }
    report
}

/// Why no report can be made of a text.
#[derive(Debug)]
pub struct ReportError {
    /// What `serde_yaml` said of the text.
    pub yaml: serde_yaml::Error,
}

/// The report lines for the OpenAPI document in the text `yml` (see
/// [`request_report`]).  `Err` exactly when `serde_yaml` does not read the
/// text as an `openapi3_parser` document.
pub fn report_from_yml(yml: &str) -> (r: Result<Vec<String>, ReportError>)
    ensures
        r is Ok <==> yaml_paths(yml@) is Some,
        r matches Ok(lines) ==> is_report_of(yaml_paths(yml@)->0, strings_view(lines@)),
{
    match parse_openapi_spec(yml) {
        Ok(spec) => Ok(request_report(&spec)),
        Err(e) => Err(ReportError { yaml: e }),
    }
}

} // verus!
