//! Character-level text handling shared by the YAML readers: splitting a text
//! into lines, trimming, and picking keys and values out of `key: value` lines.
//!
//! Every operation works on characters (`char`), and each comes with a
//! specification over `Seq<char>` that the readers' contracts are stated in.
use vstd::prelude::*;

verus! {

broadcast use vstd::string::group_string_axioms;

// ---------------------------------------------------------------------------
// Specifications
// ---------------------------------------------------------------------------
/// Number of `' '` characters at the start of `s`.
pub open spec fn leading_spaces(s: Seq<char>) -> nat
    decreases s.len(),
{
    if s.len() > 0 && s[0] == ' ' {
        1 + leading_spaces(s.drop_first())
    } else {
        0
    }
}

/// `s` without the `' '` characters it starts with.
pub open spec fn trim_start_spaces(s: Seq<char>) -> Seq<char> {
    s.skip(leading_spaces(s) as int)
}

/// Position of the first `c` in `s`, or `s.len()` when `s` holds no `c`.
pub open spec fn char_pos(s: Seq<char>, c: char) -> nat
    decreases s.len(),
{
    if s.len() == 0 {
        0
    } else if s[0] == c {
        0
    } else {
        1 + char_pos(s.drop_first(), c)
    }
}

/// The characters of `s` before its first `c` (all of `s` when it holds no `c`).
pub open spec fn before_char(s: Seq<char>, c: char) -> Seq<char> {
    s.take(char_pos(s, c) as int)
}

/// The characters of `s` after its first `' '` (nothing when it holds no `' '`).
pub open spec fn after_first_space(s: Seq<char>) -> Seq<char> {
    if char_pos(s, ' ') < s.len() {
        s.skip(char_pos(s, ' ') + 1int)
    } else {
        seq![]
    }
}

/// The value of a `key: value` line: leading spaces dropped, then everything
/// after the first space.
pub open spec fn yml_value(line: Seq<char>) -> Seq<char> {
    after_first_space(trim_start_spaces(line))
}

/// Whether `prefix` starts `s`.
pub open spec fn has_prefix(s: Seq<char>, prefix: Seq<char>) -> bool {
    prefix.is_prefix_of(s)
}

/// Whether `key` starts `s` once the leading spaces of `s` are dropped.
pub open spec fn has_prefix_after_spaces(s: Seq<char>, key: Seq<char>) -> bool {
    has_prefix(trim_start_spaces(s), key)
}

/// `s` without its first character (the empty sequence stays empty).
pub open spec fn drop_first_char(s: Seq<char>) -> Seq<char> {
    if s.len() == 0 {
        s
    } else {
        s.drop_first()
    }
}

/// The code points that carry Unicode's `White_Space` property, which is what
/// `char::is_whitespace` tests.
pub open spec fn is_white_space(c: char) -> bool {
    let u = c as u32;
    ||| 9 <= u <= 13
    ||| u == 32
    ||| u == 0x85
    ||| u == 0xA0
    ||| u == 0x1680
    ||| 0x2000 <= u <= 0x200A
    ||| u == 0x2028
    ||| u == 0x2029
    ||| u == 0x202F
    ||| u == 0x205F
    ||| u == 0x3000
}

/// Number of white-space characters at the start of `s`.
pub open spec fn leading_white_space(s: Seq<char>) -> nat
    decreases s.len(),
{
    if s.len() > 0 && is_white_space(s[0]) {
        1 + leading_white_space(s.drop_first())
    } else {
        0
    }
}

/// Number of white-space characters at the end of `s`.
pub open spec fn trailing_white_space(s: Seq<char>) -> nat
    decreases s.len(),
{
    if s.len() > 0 && is_white_space(s.last()) {
        1 + trailing_white_space(s.drop_last())
    } else {
        0
    }
}

/// `s` without white space at either end (what `str::trim` gives).
pub open spec fn trim_white_space(s: Seq<char>) -> Seq<char> {
    let a = s.skip(leading_white_space(s) as int);
    a.take(a.len() - trailing_white_space(a))
}

/// Number of `c` characters at the end of `s`.
pub open spec fn trailing_char(s: Seq<char>, c: char) -> nat
    decreases s.len(),
{
    if s.len() > 0 && s.last() == c {
        1 + trailing_char(s.drop_last(), c)
    } else {
        0
    }
}

/// `s` without the `c` characters it ends with (what `str::trim_end_matches` gives).
pub open spec fn trim_end_char(s: Seq<char>, c: char) -> Seq<char> {
    s.take(s.len() - trailing_char(s, c))
}

/// Whether `s` ends with `c`.
pub open spec fn ends_with_char(s: Seq<char>, c: char) -> bool {
    s.len() > 0 && s.last() == c
}

/// A line's `\r` is dropped when it stood right before the `\n` that ended it.
pub open spec fn strip_cr(l: Seq<char>) -> Seq<char> {
    if l.len() > 0 && l.last() == '\r' {
        l.drop_last()
    } else {
        l
    }
}

/// Lines finished so far and the line being read, once `s` has been read from
/// left to right.
pub open spec fn line_scan(s: Seq<char>) -> (Seq<Seq<char>>, Seq<char>)
    decreases s.len(),
{
    if s.len() == 0 {
        (seq![], seq![])
    } else {
        let (done, cur) = line_scan(s.drop_last());
        if s.last() == '\n' {
            (done.push(strip_cr(cur)), seq![])
        } else {
            (done, cur.push(s.last()))
        }
    }
}

/// The lines of `s`, as `str::lines` yields them: split at each `\n` (a `\r`
/// right before it is dropped too), with no empty line after a final `\n`.
pub open spec fn lines_of(s: Seq<char>) -> Seq<Seq<char>> {
    let (done, cur) = line_scan(s);
    if cur.len() == 0 {
        done
    } else {
        done.push(cur)
    }
}

/// `line` followed by a line break.
pub open spec fn with_newline(line: Seq<char>) -> Seq<char> {
    line + seq!['\n']
}

/// The parts of `parts` with `sep` between each two neighbours.
pub open spec fn join_with(parts: Seq<Seq<char>>, sep: Seq<char>) -> Seq<char>
    decreases parts.len(),
{
    if parts.len() == 0 {
        seq![]
    } else if parts.len() == 1 {
        parts[0]
    } else {
        join_with(parts.drop_last(), sep) + sep + parts.last()
    }
}

/// The lines from the second on, as `lines().skip(1)` yields them.
pub open spec fn skip_first_line(ls: Seq<Seq<char>>) -> Seq<Seq<char>> {
    if ls.len() == 0 {
        ls
    } else {
        ls.drop_first()
    }
}

/// The key of the first line of `yml` that is not empty once its leading
/// spaces are dropped: that line up to its first `:`.  Empty when there is no
/// such line.
pub open spec fn first_key_of_lines(ls: Seq<Seq<char>>) -> Seq<char>
    decreases ls.len(),
{
    if ls.len() == 0 {
        seq![]
    } else if trim_start_spaces(ls[0]).len() == 0 {
        first_key_of_lines(ls.drop_first())
    } else {
        before_char(trim_start_spaces(ls[0]), ':')
    }
}

/// The key of the first non-empty line of `yml` (see [`first_key_of_lines`]).
pub open spec fn first_yml_key_spec(yml: Seq<char>) -> Seq<char> {
    first_key_of_lines(lines_of(yml))
}

/// Reading state of `return_yml_after_key`: the text collected so far and
/// whether the key line has been seen.
pub open spec fn after_key_scan(ls: Seq<Seq<char>>, key: Seq<char>) -> (Seq<char>, bool)
    decreases ls.len(),
{
    if ls.len() == 0 {
        (seq![], false)
    } else {
        let (acc, building) = after_key_scan(ls.drop_last(), key);
        let l = ls.last();
        let acc2 = if building {
            acc + with_newline(l)
        } else {
            acc
        };
        (acc2, building || has_prefix_after_spaces(l, key))
    }
}

/// The lines of `yml` after the first one that starts with `key` once its
/// leading spaces are dropped, each followed by a line break.
pub open spec fn yml_after_key(yml: Seq<char>, key: Seq<char>) -> Seq<char> {
    after_key_scan(lines_of(yml), key).0
}

/// The character views of a sequence of character vectors.
pub open spec fn char_vecs_view(v: Seq<Vec<char>>) -> Seq<Seq<char>> {
    v.map_values(|x: Vec<char>| x@)
}

/// The character views of a sequence of strings.
pub open spec fn strings_view(v: Seq<String>) -> Seq<Seq<char>> {
    v.map_values(|x: String| x@)
}

// ---------------------------------------------------------------------------
// Lemmas
// ---------------------------------------------------------------------------
pub proof fn lemma_leading_spaces(s: Seq<char>)
    ensures
        leading_spaces(s) <= s.len(),
        forall|j: int| 0 <= j < leading_spaces(s) ==> s[j] == ' ',
        leading_spaces(s) < s.len() ==> s[leading_spaces(s) as int] != ' ',
    decreases s.len(),
{
    if s.len() > 0 && s[0] == ' ' {
        lemma_leading_spaces(s.drop_first());
        assert forall|j: int| 0 <= j < leading_spaces(s) implies s[j] == ' ' by {
            if j > 0 {
                assert(s[j] == s.drop_first()[j - 1]);
            }
        }
    }
}

pub proof fn lemma_char_pos(s: Seq<char>, c: char)
    ensures
        char_pos(s, c) <= s.len(),
        forall|j: int| 0 <= j < char_pos(s, c) ==> s[j] != c,
        char_pos(s, c) < s.len() ==> s[char_pos(s, c) as int] == c,
    decreases s.len(),
{
    if s.len() > 0 && s[0] != c {
        lemma_char_pos(s.drop_first(), c);
        assert forall|j: int| 0 <= j < char_pos(s, c) implies s[j] != c by {
            if j > 0 {
                assert(s[j] == s.drop_first()[j - 1]);
            }
        }
    }
}

pub proof fn lemma_leading_white_space(s: Seq<char>)
    ensures
        leading_white_space(s) <= s.len(),
    decreases s.len(),
{
    if s.len() > 0 && is_white_space(s[0]) {
        lemma_leading_white_space(s.drop_first());
    }
}

pub proof fn lemma_trailing_white_space(s: Seq<char>)
    ensures
        trailing_white_space(s) <= s.len(),
    decreases s.len(),
{
    if s.len() > 0 && is_white_space(s.last()) {
        lemma_trailing_white_space(s.drop_last());
    }
}

pub proof fn lemma_trailing_char(s: Seq<char>, c: char)
    ensures
        trailing_char(s, c) <= s.len(),
    decreases s.len(),
{
    if s.len() > 0 && s.last() == c {
        lemma_trailing_char(s.drop_last(), c);
    }
}

/// Whether `s` holds no line break.
pub open spec fn no_newline(s: Seq<char>) -> bool {
    forall|i: int| 0 <= i < s.len() ==> s[i] != '\n'
}

/// Whether every sequence in `ls` holds no line break.
pub open spec fn all_no_newline(ls: Seq<Seq<char>>) -> bool {
    forall|i: int| 0 <= i < ls.len() ==> no_newline(#[trigger] ls[i])
}

/// Reading characters other than line breaks only extends the line being read.
pub proof fn lemma_line_scan_text(s: Seq<char>, t: Seq<char>)
    requires
        no_newline(t),
    ensures
        line_scan(s + t) == (line_scan(s).0, line_scan(s).1 + t),
    decreases t.len(),
{
    if t.len() == 0 {
        assert(s + t =~= s);
        assert(line_scan(s).1 + t =~= line_scan(s).1);
    } else {
        let t2 = t.drop_last();
        lemma_line_scan_text(s, t2);
        assert((s + t).drop_last() =~= s + t2);
        assert((s + t).last() == t.last());
        assert((line_scan(s).1 + t2).push(t.last()) =~= line_scan(s).1 + t);
    }
}

/// Reading a line break finishes the line being read.
pub proof fn lemma_line_scan_newline(s: Seq<char>)
    ensures
        line_scan(s + seq!['\n']) == (line_scan(s).0.push(strip_cr(line_scan(s).1)), Seq::<
            char,
        >::empty()),
{
    assert((s + seq!['\n']).drop_last() =~= s);
}

/// While reading, neither the finished lines nor the line being read hold a
/// line break.
pub proof fn lemma_line_scan_no_newline(s: Seq<char>)
    ensures
        all_no_newline(line_scan(s).0),
        no_newline(line_scan(s).1),
    decreases s.len(),
{
    if s.len() > 0 {
        lemma_line_scan_no_newline(s.drop_last());
        let (done, cur) = line_scan(s.drop_last());
        if s.last() == '\n' {
            assert(no_newline(strip_cr(cur)));
            assert forall|i: int| 0 <= i < done.push(strip_cr(cur)).len() implies no_newline(
                #[trigger] done.push(strip_cr(cur))[i],
            ) by {
                if i < done.len() {
                    assert(done.push(strip_cr(cur))[i] == done[i]);
                }
            }
        }
    }
}

/// No line of a text holds a line break.
pub proof fn lemma_lines_no_newline(s: Seq<char>)
    ensures
        all_no_newline(lines_of(s)),
{
    lemma_line_scan_no_newline(s);
    let (done, cur) = line_scan(s);
    if cur.len() > 0 {
        assert forall|i: int| 0 <= i < done.push(cur).len() implies no_newline(
            #[trigger] done.push(cur)[i],
        ) by {
            if i < done.len() {
                assert(done.push(cur)[i] == done[i]);
            }
        }
    }
}

/// Whether `l` does not end with a carriage return.
pub open spec fn no_trailing_cr(l: Seq<char>) -> bool {
    l.len() == 0 || l.last() != '\r'
}

/// Reading lines joined by line breaks: all but the last are finished, the
/// last one is being read.
pub proof fn lemma_line_scan_joined(parts: Seq<Seq<char>>)
    requires
        parts.len() > 0,
        all_no_newline(parts),
        forall|i: int| 0 <= i < parts.len() - 1 ==> no_trailing_cr(#[trigger] parts[i]),
    ensures
        line_scan(join_with(parts, seq!['\n'])) == (parts.drop_last(), parts.last()),
    decreases parts.len(),
{
    if parts.len() == 1 {
        assert(no_newline(parts[0]));
        lemma_line_scan_text(Seq::<char>::empty(), parts[0]);
        assert(Seq::<char>::empty() + parts[0] =~= parts[0]);
        assert(line_scan(Seq::<char>::empty()) == (Seq::<Seq<char>>::empty(), Seq::<char>::empty()));
        assert(Seq::<char>::empty() + parts[0] =~= parts[0]);
        assert(parts.drop_last() =~= Seq::<Seq<char>>::empty());
    } else {
        let p2 = parts.drop_last();
        assert forall|i: int| 0 <= i < p2.len() implies no_newline(#[trigger] p2[i]) by {
            assert(p2[i] == parts[i]);
        }
        assert forall|i: int| 0 <= i < p2.len() - 1 implies no_trailing_cr(#[trigger] p2[i]) by {
            assert(p2[i] == parts[i]);
        }
        lemma_line_scan_joined(p2);
        let j = join_with(p2, seq!['\n']);
        lemma_line_scan_newline(j);
        assert(no_trailing_cr(parts[parts.len() - 2]));
        assert(strip_cr(p2.last()) == p2.last());
        assert(p2.drop_last().push(p2.last()) =~= p2);
        assert(no_newline(parts.last()));
        lemma_line_scan_text(j + seq!['\n'], parts.last());
        assert(join_with(parts, seq!['\n']) =~= j + seq!['\n'] + parts.last());
    }
}

/// Splitting the lines of a text made of lines joined by line breaks gives
/// those lines back, when none holds a line break, none but the last ends with
/// a carriage return, and the last is not empty.
pub proof fn lemma_lines_of_joined(parts: Seq<Seq<char>>)
    requires
        parts.len() > 0,
        all_no_newline(parts),
        forall|i: int| 0 <= i < parts.len() - 1 ==> no_trailing_cr(#[trigger] parts[i]),
        parts.last().len() > 0,
    ensures
        lines_of(join_with(parts, seq!['\n'])) == parts,
{
    lemma_line_scan_joined(parts);
    assert(parts.drop_last().push(parts.last()) =~= parts);
}

/// Spaces in front of a text add to its leading spaces.
pub proof fn lemma_leading_spaces_concat(a: Seq<char>, b: Seq<char>)
    requires
        forall|i: int| 0 <= i < a.len() ==> a[i] == ' ',
    ensures
        leading_spaces(a + b) == a.len() + leading_spaces(b),
        trim_start_spaces(a + b) == trim_start_spaces(b),
    decreases a.len(),
{
    if a.len() > 0 {
        assert((a + b)[0] == ' ');
        assert((a + b).drop_first() =~= a.drop_first() + b);
        lemma_leading_spaces_concat(a.drop_first(), b);
    } else {
        assert(a + b =~= b);
    }
    lemma_leading_spaces(b);
    assert((a + b).skip(leading_spaces(a + b) as int) =~= b.skip(leading_spaces(b) as int));
}

/// A text that holds no `c` moves the first `c` after it by its length.
pub proof fn lemma_char_pos_concat(a: Seq<char>, b: Seq<char>, c: char)
    requires
        forall|i: int| 0 <= i < a.len() ==> a[i] != c,
    ensures
        char_pos(a + b, c) == a.len() + char_pos(b, c),
    decreases a.len(),
{
    if a.len() > 0 {
        assert((a + b)[0] == a[0]);
        assert((a + b).drop_first() =~= a.drop_first() + b);
        lemma_char_pos_concat(a.drop_first(), b, c);
    } else {
        assert(a + b =~= b);
    }
}

/// The value of a line `indent + key + " " + v`, where `indent` is spaces and
/// `key` holds no space and does not start one, is `v`; dropping the leading
/// spaces leaves `key + " " + v`.
pub proof fn lemma_key_line(indent: Seq<char>, key: Seq<char>, v: Seq<char>)
    requires
        forall|i: int| 0 <= i < indent.len() ==> indent[i] == ' ',
        key.len() > 0,
        forall|i: int| 0 <= i < key.len() ==> key[i] != ' ',
    ensures
        trim_start_spaces(indent + key + seq![' '] + v) == key + seq![' '] + v,
        yml_value(indent + key + seq![' '] + v) == v,
        has_prefix(key + seq![' '] + v, key),
{
    let rest = key + seq![' '] + v;
    assert(indent + key + seq![' '] + v =~= indent + rest);
    lemma_leading_spaces_concat(indent, rest);
    assert(leading_spaces(rest) == 0);
    assert(rest.skip(0) =~= rest);
    assert(key + seq![' '] + v =~= key + (seq![' '] + v));
    lemma_char_pos_concat(key, seq![' '] + v, ' ');
    assert(char_pos(seq![' '] + v, ' ') == 0);
    assert(rest.skip(key.len() + 1int) =~= v);
    assert(rest.subrange(0, key.len() as int) =~= key);
}

/// A text that starts with another character than `p` does is not prefixed
/// by `p`.
pub proof fn lemma_not_prefix(s: Seq<char>, p: Seq<char>)
    requires
        s.len() > 0,
        p.len() > 0,
        s[0] != p[0],
    ensures
        !has_prefix(s, p),
{
    if p.len() <= s.len() {
        assert(s.subrange(0, p.len() as int)[0] == s[0]);
    }
}

/// Two texts without line breaks make one without line breaks.
pub proof fn lemma_no_newline_concat(a: Seq<char>, b: Seq<char>)
    requires
        no_newline(a),
        no_newline(b),
    ensures
        no_newline(a + b),
{
    assert forall|i: int| 0 <= i < (a + b).len() implies (a + b)[i] != '\n' by {
        if i < a.len() {
            assert((a + b)[i] == a[i]);
        } else {
            assert((a + b)[i] == b[i - a.len()]);
        }
    }
}

/// The lines `q`, each followed by a line break.
pub open spec fn lines_text(q: Seq<Seq<char>>) -> Seq<char>
    decreases q.len(),
{
    if q.len() == 0 {
        seq![]
    } else {
        lines_text(q.drop_last()) + with_newline(q.last())
    }
}

/// Lines followed by line breaks are lines joined by line breaks, with one
/// more at the end.
pub proof fn lemma_lines_text_joined(q: Seq<Seq<char>>)
    requires
        q.len() > 0,
    ensures
        lines_text(q) == join_with(q, seq!['\n']) + seq!['\n'],
    decreases q.len(),
{
    if q.len() == 1 {
        assert(q.drop_last() =~= Seq::<Seq<char>>::empty());
        assert(lines_text(q.drop_last()) == Seq::<char>::empty());
        assert(q.last() == q[0]);
        assert(lines_text(q) =~= Seq::<char>::empty() + with_newline(q[0]));
        assert(lines_text(q) =~= join_with(q, seq!['\n']) + seq!['\n']);
    } else {
        lemma_lines_text_joined(q.drop_last());
        assert(lines_text(q) =~= join_with(q, seq!['\n']) + seq!['\n']);
    }
}

/// The text of two runs of lines is the text of the first, then of the second.
pub proof fn lemma_lines_text_concat(a: Seq<Seq<char>>, b: Seq<Seq<char>>)
    ensures
        lines_text(a + b) == lines_text(a) + lines_text(b),
    decreases b.len(),
{
    if b.len() == 0 {
        assert(a + b =~= a);
        assert(lines_text(a) + lines_text(b) =~= lines_text(a));
    } else {
        lemma_lines_text_concat(a, b.drop_last());
        assert((a + b).drop_last() =~= a + b.drop_last());
        assert((a + b).last() == b.last());
        assert(lines_text(a + b) =~= lines_text(a) + lines_text(b));
    }
}

/// Splitting the lines of lines each followed by a line break gives those
/// lines back, when none holds a line break or ends with a carriage return.
pub proof fn lemma_lines_of_lines_text(q: Seq<Seq<char>>)
    requires
        all_no_newline(q),
        forall|i: int| 0 <= i < q.len() ==> no_trailing_cr(#[trigger] q[i]),
    ensures
        lines_of(lines_text(q)) == q,
{
    if q.len() == 0 {
        assert(line_scan(Seq::<char>::empty()) == (Seq::<Seq<char>>::empty(), Seq::<char>::empty()));
    } else {
        lemma_lines_text_joined(q);
        lemma_line_scan_joined(q);
        lemma_line_scan_newline(join_with(q, seq!['\n']));
        assert(no_trailing_cr(q.last()));
        assert(q.drop_last().push(q.last()) =~= q);
    }
}

// ---------------------------------------------------------------------------
// Conversions between strings and characters
// ---------------------------------------------------------------------------
/// The characters of `s`, in order.
pub fn chars_of(s: &str) -> (v: Vec<char>)
    ensures
        v@ == s@,
{
    let mut v: Vec<char> = Vec::new();
    for c in it: s.chars()
        invariant
            v@ == it.seq().take(it.index() as int),
            it.seq() == s@,
    {
        v.push(c);
    }
    v
}

/// Builds a string through `String::from_iter` over the characters of `cs`:
/// the contract claims that the string holds exactly those characters, in
/// order, as the standard library documents.
#[verifier::external_body]
pub(crate) fn string_from_chars(cs: &[char]) -> (s: String)
    ensures
        s@ == cs@,
{
    String::from_iter(cs.iter())
}

/// Appends `line` and then a line break to `buf`.
pub fn push_line(buf: &mut Vec<char>, line: &[char])
    ensures
        final(buf)@ == old(buf)@ + with_newline(line@),
{
    let ghost start = buf@;
    let mut i: usize = 0;
    while i < line.len()
        invariant
            i <= line@.len(),
            buf@ == start + line@.take(i as int),
        decreases line@.len() - i,
    {
        buf.push(line[i]);
        i += 1;
        proof {
            assert(line@.take(i as int) =~= line@.take(i - 1).push(line@[i - 1]));
        }
    }
    buf.push('\n');
    proof {
        assert(line@.take(line@.len() as int) =~= line@);
        assert(buf@ =~= start + with_newline(line@));
    }
}

/// Appends all of `part` to `buf`.
pub fn push_chars(buf: &mut Vec<char>, part: &[char])
    ensures
        final(buf)@ == old(buf)@ + part@,
{
    let ghost start = buf@;
    let mut i: usize = 0;
    while i < part.len()
        invariant
            i <= part@.len(),
            buf@ == start + part@.take(i as int),
        decreases part@.len() - i,
    {
        buf.push(part[i]);
        i += 1;
        proof {
            assert(part@.take(i as int) =~= part@.take(i - 1).push(part@[i - 1]));
        }
    }
    proof {
        assert(part@.take(part@.len() as int) =~= part@);
    }
}

/// A copy of `s` as a new vector.
pub fn copy_chars(s: &[char]) -> (v: Vec<char>)
    ensures
        v@ == s@,
{
    let mut v: Vec<char> = Vec::new();
    push_chars(&mut v, s);
    proof {
        assert(v@ =~= s@);
    }
    v
}

/// The characters of `s` from position `from` on.
pub fn chars_from(s: &[char], from: usize) -> (v: Vec<char>)
    requires
        from <= s@.len(),
    ensures
        v@ == s@.skip(from as int),
{
    let mut v: Vec<char> = Vec::new();
    let mut i = from;
    while i < s.len()
        invariant
            from <= i <= s@.len(),
            v@ == s@.subrange(from as int, i as int),
        decreases s@.len() - i,
    {
        v.push(s[i]);
        i += 1;
        proof {
            assert(s@.subrange(from as int, i as int) =~= s@.subrange(from as int, i - 1).push(
                s@[i - 1],
            ));
        }
    }
    v
}

/// The first `n` characters of `s`.
pub fn chars_upto(s: &[char], n: usize) -> (v: Vec<char>)
    requires
        n <= s@.len(),
    ensures
        v@ == s@.take(n as int),
{
    let mut v: Vec<char> = Vec::new();
    let mut i: usize = 0;
    while i < n
        invariant
            n <= s@.len(),
            i <= n,
            v@ == s@.take(i as int),
        decreases n - i,
    {
        v.push(s[i]);
        i += 1;
        proof {
            assert(s@.take(i as int) =~= s@.take(i - 1).push(s@[i - 1]));
        }
    }
    v
}

// ---------------------------------------------------------------------------
// Tests on characters
// ---------------------------------------------------------------------------
/// Whether `prefix` starts `s`.
pub fn starts_with(s: &[char], prefix: &str) -> (b: bool)
    ensures
        b == has_prefix(s@, prefix@),
{
    let p = chars_of(prefix);
    starts_with_chars(s, &p)
}

/// Whether `p` starts `s`.
pub fn starts_with_chars(s: &[char], p: &[char]) -> (b: bool)
    ensures
        b == has_prefix(s@, p@),
{
    if p.len() > s.len() {
        return false;
    }
    let mut i: usize = 0;
    while i < p.len()
        invariant
            p@.len() <= s@.len(),
            i <= p@.len(),
            forall|j: int| 0 <= j < i ==> p@[j] == s@[j],
        decreases p@.len() - i,
    {
        if p[i] != s[i] {
            proof {
                assert(p@[i as int] != s@.subrange(0, p@.len() as int)[i as int]);
            }
            return false;
        }
        i += 1;
    }
    proof {
        assert(p@ =~= s@.subrange(0, p@.len() as int));
    }
    true
}

/// Whether `s` holds exactly the characters of `lit`.
pub fn equals_str(s: &[char], lit: &str) -> (b: bool)
    ensures
        b == (s@ == lit@),
{
    let p = chars_of(lit);
    if p.len() != s.len() {
        return false;
    }
    let r = starts_with_chars(s, &p);
    proof {
        if r {
            assert(s@ =~= p@);
        }
    }
    r
}

/// Whether `s` ends with `c`.
pub fn ends_with(s: &[char], c: char) -> (b: bool)
    ensures
        b == ends_with_char(s@, c),
{
    s.len() > 0 && s[s.len() - 1] == c
}

/// `char::is_whitespace`, written out over the `White_Space` code points.
pub fn is_white_space_char(c: char) -> (b: bool)
    ensures
        b == is_white_space(c),
{
    let u = c as u32;
    (9 <= u && u <= 13) || u == 32 || u == 0x85 || u == 0xA0 || u == 0x1680 || (0x2000 <= u && u
        <= 0x200A) || u == 0x2028 || u == 0x2029 || u == 0x202F || u == 0x205F || u == 0x3000
}

// ---------------------------------------------------------------------------
// Positions
// ---------------------------------------------------------------------------
/// Position of the first `c` in `s`, or its length when there is none.
pub fn find_char(s: &[char], c: char) -> (k: usize)
    ensures
        k == char_pos(s@, c),
{
    let mut i: usize = 0;
    assert(s@.skip(0) =~= s@);
    while i < s.len() && s[i] != c
        invariant
            i <= s@.len(),
            char_pos(s@, c) == i + char_pos(s@.skip(i as int), c),
        decreases s@.len() - i,
    {
        proof {
            assert(s@.skip(i as int).drop_first() =~= s@.skip(i + 1));
        }
        i += 1;
    }
    i
}

/// Number of leading `' '` characters of `s`.
pub fn count_leading_spaces(s: &[char]) -> (k: usize)
    ensures
        k == leading_spaces(s@),
{
    let mut i: usize = 0;
    assert(s@.skip(0) =~= s@);
    while i < s.len() && s[i] == ' '
        invariant
            i <= s@.len(),
            leading_spaces(s@) == i + leading_spaces(s@.skip(i as int)),
        decreases s@.len() - i,
    {
        proof {
            assert(s@.skip(i as int).drop_first() =~= s@.skip(i + 1));
        }
        i += 1;
    }
    i
}

// ---------------------------------------------------------------------------
// Line-level operations
// ---------------------------------------------------------------------------
/// Drops the spaces a line starts with.
pub fn rm_starting_spaces(line: &[char]) -> (r: Vec<char>)
    ensures
        r@ == trim_start_spaces(line@),
{
    let k = count_leading_spaces(line);
    proof {
        lemma_leading_spaces(line@);
    }
    chars_from(line, k)
}

/// The value of a `key: value` line: the text after the first space, once the
/// leading spaces are dropped.
pub fn rm_yml_key(line: &[char]) -> (r: Vec<char>)
    ensures
        r@ == yml_value(line@),
{
    let t = rm_starting_spaces(line);
    let k = find_char(&t, ' ');
    proof {
        lemma_char_pos(t@, ' ');
    }
    if k < t.len() {
        chars_from(&t, k + 1)
    } else {
        Vec::new()
    }
}

/// Whether `key` starts `line` once its leading spaces are dropped.
pub fn starts_with_without_spaces(line: &[char], key: &str) -> (b: bool)
    ensures
        b == has_prefix_after_spaces(line@, key@),
{
    let my_line = rm_starting_spaces(line);
    starts_with(&my_line, key)
}

/// `s` without white space at either end.
pub fn trim(s: &[char]) -> (r: Vec<char>)
    ensures
        r@ == trim_white_space(s@),
{
    let mut i: usize = 0;
    assert(s@.skip(0) =~= s@);
    while i < s.len() && is_white_space_char(s[i])
        invariant
            i <= s@.len(),
            leading_white_space(s@) == i + leading_white_space(s@.skip(i as int)),
        decreases s@.len() - i,
    {
        proof {
            assert(s@.skip(i as int).drop_first() =~= s@.skip(i + 1));
        }
        i += 1;
    }
    let a = chars_from(s, i);
    let mut j: usize = a.len();
    assert(a@.take(a@.len() as int) =~= a@);
    while j > 0 && is_white_space_char(a[j - 1])
        invariant
            j <= a@.len(),
            trailing_white_space(a@) == (a@.len() - j) + trailing_white_space(a@.take(j as int)),
        decreases j,
    {
        proof {
            assert(a@.take(j as int).drop_last() =~= a@.take(j - 1));
        }
        j -= 1;
    }
    proof {
        assert(a@.take(a@.len() as int) =~= a@);
    }
    chars_upto(&a, j)
}

/// `s` without the `c` characters it ends with.
pub fn trim_end_matches(s: &[char], c: char) -> (r: Vec<char>)
    ensures
        r@ == trim_end_char(s@, c),
{
    let mut j: usize = s.len();
    assert(s@.take(s@.len() as int) =~= s@);
    while j > 0 && s[j - 1] == c
        invariant
            j <= s@.len(),
            trailing_char(s@, c) == (s@.len() - j) + trailing_char(s@.take(j as int), c),
        decreases j,
    {
        proof {
            assert(s@.take(j as int).drop_last() =~= s@.take(j - 1));
        }
        j -= 1;
    }
    proof {
        assert(s@.take(s@.len() as int) =~= s@);
    }
    chars_upto(s, j)
}

/// Splits `s` into its lines, as `str::lines` does.
pub fn split_lines(s: &[char]) -> (ls: Vec<Vec<char>>)
    ensures
        char_vecs_view(ls@) == lines_of(s@),
{
    let mut done: Vec<Vec<char>> = Vec::new();
    let mut cur: Vec<char> = Vec::new();
    let mut i: usize = 0;
    while i < s.len()
        invariant
            i <= s@.len(),
            (char_vecs_view(done@), cur@) == line_scan(s@.take(i as int)),
        decreases s@.len() - i,
    {
        let c = s[i];
        proof {
            assert(s@.take(i + 1).drop_last() =~= s@.take(i as int));
        }
        if c == '\n' {
            let mut line = cur;
            if line.len() > 0 && line[line.len() - 1] == '\r' {
                line.pop();
            }
            proof {
                assert(line@ =~= strip_cr(cur@));
            }
            done.push(line);
            cur = Vec::new();
            proof {
                assert(char_vecs_view(done@) =~= line_scan(s@.take(i + 1)).0);
            }
        } else {
            cur.push(c);
        }
        i += 1;
    }
    proof {
        assert(s@.take(s@.len() as int) =~= s@);
    }
    if cur.len() > 0 {
        done.push(cur);
        proof {
            assert(char_vecs_view(done@) =~= lines_of(s@));
        }
    }
    done
}

/// The key of the first non-empty line of `yml`: that line (leading spaces
/// dropped) up to its first `:`.
pub fn first_yml_key(yml: &[char]) -> (k: Vec<char>)
    ensures
        k@ == first_yml_key_spec(yml@),
{
    let ls = split_lines(yml);
    let ghost lv = char_vecs_view(ls@);
    let mut i: usize = 0;
    assert(lv.skip(0) =~= lv);
    while i < ls.len()
        invariant
            i <= ls@.len(),
            lv == char_vecs_view(ls@),
            lv.len() == ls@.len(),
            lv == lines_of(yml@),
            first_key_of_lines(lv) == first_key_of_lines(lv.skip(i as int)),
        decreases ls@.len() - i,
    {
        let l = rm_starting_spaces(&ls[i]);
        proof {
            assert(lv[i as int] == ls@[i as int]@);
            assert(lv.skip(i as int)[0] == ls@[i as int]@);
            assert(lv.skip(i as int).drop_first() =~= lv.skip(i + 1));
        }
        if l.len() > 0 {
            let p = find_char(&l, ':');
            proof {
                lemma_char_pos(l@, ':');
            }
            return chars_upto(&l, p);
        }
        i += 1;
    }
    proof {
        assert(lv.skip(i as int).len() == 0);
    }
    Vec::new()
}

/// The lines of `yml` after the first one that starts with `key` (leading
/// spaces dropped), each followed by a line break.
pub fn return_yml_after_key(yml: &[char], key: &str) -> (r: Vec<char>)
    ensures
        r@ == yml_after_key(yml@, key@),
{
    let ls = split_lines(yml);
    let ghost lv = char_vecs_view(ls@);
    let mut to_return: Vec<char> = Vec::new();
    let mut building = false;
    let mut i: usize = 0;
    while i < ls.len()
        invariant
            i <= ls@.len(),
            lv == char_vecs_view(ls@),
            lv.len() == ls@.len(),
            (to_return@, building) == after_key_scan(lv.take(i as int), key@),
        decreases ls@.len() - i,
    {
        proof {
            assert(lv.take(i + 1).drop_last() =~= lv.take(i as int));
        }
        if building {
            push_line(&mut to_return, &ls[i]);
        }
        if starts_with_without_spaces(&ls[i], key) {
            building = true;
        }
        i += 1;
    }
    proof {
        assert(lv.take(ls@.len() as int) =~= lv);
    }
    to_return
}

/// The lines `ls[from..]`, joined by line breaks.
pub fn join_lines_from(ls: &Vec<Vec<char>>, from: usize) -> (r: Vec<char>)
    requires
        from <= ls@.len(),
    ensures
        r@ == join_with(char_vecs_view(ls@).skip(from as int), seq!['\n']),
{
    let ghost lv = char_vecs_view(ls@);
    let mut r: Vec<char> = Vec::new();
    let mut i = from;
    while i < ls.len()
        invariant
            from <= i <= ls@.len(),
            lv == char_vecs_view(ls@),
            lv.len() == ls@.len(),
            r@ == join_with(lv.subrange(from as int, i as int), seq!['\n']),
        decreases ls@.len() - i,
    {
        proof {
            assert(lv.subrange(from as int, i + 1).drop_last() =~= lv.subrange(
                from as int,
                i as int,
            ));
        }
        if i > from {
            r.push('\n');
        }
        push_chars(&mut r, &ls[i]);
        proof {
            if i == from {
                assert(r@ =~= lv.subrange(from as int, i + 1)[0]);
            }
        }
        i += 1;
    }
    proof {
        assert(lv.subrange(from as int, ls@.len() as int) =~= lv.skip(from as int));
    }
    r
}

/// The strings of `parts` with `sep` between each two neighbours.
pub fn join_strings(parts: &Vec<String>, sep: &str) -> (r: String)
    ensures
        r@ == join_with(strings_view(parts@), sep@),
{
    let ghost pv = strings_view(parts@);
    let mut r = String::new();
    let mut i: usize = 0;
    while i < parts.len()
        invariant
            i <= parts@.len(),
            pv == strings_view(parts@),
            pv.len() == parts@.len(),
            r@ == join_with(pv.take(i as int), sep@),
        decreases parts@.len() - i,
    {
        proof {
            assert(pv.take(i + 1).drop_last() =~= pv.take(i as int));
        }
        if i > 0 {
            r.append(sep);
        }
        r.append(parts[i].as_str());
        proof {
            if i == 0 {
                assert(r@ =~= pv.take(1)[0]);
            }
        }
        i += 1;
    }
    proof {
        assert(pv.take(parts@.len() as int) =~= pv);
    }
    r
}

/// A string holding the characters of `lit`.
pub fn string_of(lit: &str) -> (r: String)
    ensures
        r@ == lit@,
{
    let mut r = String::new();
    r.append(lit);
    r
}

/// A string holding the characters of `lit` followed by those of `tail`.
pub fn concat2(lit: &str, tail: &str) -> (r: String)
    ensures
        r@ == lit@ + tail@,
{
    let mut r = String::new();
    r.append(lit);
    r.append(tail);
    r
}

/// A string holding `a`, `b` and `c` one after the other.
pub fn concat3(a: &str, b: &str, c: &str) -> (r: String)
    ensures
        r@ == a@ + b@ + c@,
{
    let mut r = String::new();
    r.append(a);
    r.append(b);
    r.append(c);
    r
}

} // verus!
