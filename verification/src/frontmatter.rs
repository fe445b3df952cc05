//! The frontmatter document format: an optional leading metadata block,
//! delimited by `---` lines, followed by the body text.
use crate::definition::SubAgentMode;
use crate::text::{
    chars_of, find_char, lemma_position, lowercase_is, lowercased, position, text_of, trim,
    trimmed,
};
use vstd::prelude::*;

verus! {

/// The metadata a document declares.
pub struct Metadata {
    pub description: Option<Seq<char>>,
    pub tools_allowed: Seq<Seq<char>>,
    pub tools_blocked: Seq<Seq<char>>,
    pub mode: Option<SubAgentMode>,
}

/// A parsed document: its metadata and the text that follows the block.
pub struct Frontmatter {
    pub metadata: Metadata,
    pub body: Seq<char>,
}

/// The keys a metadata line may set.
#[derive(Debug, Clone, Copy, PartialEq, Eq, Structural)]
pub enum Field {
    Description,
    ToolsAllowed,
    ToolsBlocked,
    Mode,
}

/// Metadata with nothing declared.
pub open spec fn no_metadata() -> Metadata {
    Metadata {
        description: None,
        tools_allowed: Seq::empty(),
        tools_blocked: Seq::empty(),
        mode: None,
    }
}

/// A document without a metadata block: all of `content` is body.
pub open spec fn plain(content: Seq<char>) -> Frontmatter {
    Frontmatter { metadata: no_metadata(), body: content }
}

/// Length of the first line of `s` with its terminator: up to and including
/// the first line feed, or all of `s` where there is none.
pub open spec fn first_line_len(s: Seq<char>) -> nat {
    if position(s, '\n') < s.len() {
        position(s, '\n') + 1
    } else {
        s.len()
    }
}

/// Whether a line, terminator included, is a block delimiter: its trimmed
/// content is exactly three hyphens.
pub open spec fn is_marker(line: Seq<char>) -> bool {
    trimmed(line) == seq!['-', '-', '-']
}

/// `v` without the quotes that wrap it, where the same quote character,
/// single or double, both opens and closes it.
pub open spec fn unquoted(v: Seq<char>) -> Seq<char> {
    if v.len() >= 2 && v[0] == v.last() && (v[0] == '"' || v[0] == '\'') {
        v.subrange(1, v.len() - 1)
    } else {
        v
    }
}

/// The items of a comma-separated list: each trimmed, empty ones dropped,
/// order kept.
pub open spec fn list_items(s: Seq<char>) -> Seq<Seq<char>>
    decreases s.len(),
{
    let n = position(s, ',');
    let item = trimmed(s.take(n as int));
    let head = if item.len() == 0 {
        Seq::<Seq<char>>::empty()
    } else {
        seq![item]
    };
    if n < s.len() {
        head + list_items(s.skip(n as int + 1))
    } else {
        head
    }
}

/// The mode a value spells, case-insensitively; `None` for any other value.
pub open spec fn mode_of(value: Seq<char>) -> Option<SubAgentMode> {
    let word = lowercased(trimmed(value));
    if word == "read-only"@ || word == "readonly"@ {
        Some(SubAgentMode::ReadOnly)
    } else if word == "full-auto"@ || word == "full_auto"@ {
        Some(SubAgentMode::FullAuto)
    } else if word == "danger-full-access"@ || word == "danger_full_access"@ || word
        == "danger"@ {
        Some(SubAgentMode::DangerFullAccess)
    } else {
        None
    }
}

/// The field a key names, case-insensitively, with hyphen or underscore
/// between its words.
pub open spec fn field_of(key: Seq<char>) -> Option<Field> {
    let word = lowercased(trimmed(key));
    if word == "description"@ {
        Some(Field::Description)
    } else if word == "tools_allowed"@ || word == "tools-allowed"@ {
        Some(Field::ToolsAllowed)
    } else if word == "tools_blocked"@ || word == "tools-blocked"@ {
        Some(Field::ToolsBlocked)
    } else if word == "mode"@ {
        Some(Field::Mode)
    } else {
        None
    }
}

/// The field and value that a trimmed metadata line sets. `None` for a blank
/// line, a comment, a line without a colon and an unknown key.
pub open spec fn entry_of(line: Seq<char>) -> Option<(Field, Seq<char>)> {
    let colon = position(line, ':');
    if line.len() == 0 || line[0] == '#' || colon >= line.len() {
        None
    } else {
        match field_of(line.take(colon as int)) {
            Some(field) => Some((field, unquoted(trimmed(line.skip(colon as int + 1))))),
            None => None,
        }
    }
}

/// `metadata` after a trimmed line of the block: a later occurrence of a key
/// replaces what an earlier one set.
pub open spec fn apply_line(metadata: Metadata, line: Seq<char>) -> Metadata {
    match entry_of(line) {
        Some((Field::Description, value)) => Metadata { description: Some(value), ..metadata },
        Some((Field::ToolsAllowed, value)) => Metadata {
            tools_allowed: list_items(value),
            ..metadata
        },
        Some((Field::ToolsBlocked, value)) => Metadata {
            tools_blocked: list_items(value),
            ..metadata
        },
        Some((Field::Mode, value)) => Metadata { mode: mode_of(value), ..metadata },
        None => metadata,
    }
}

/// The lines of `s` in order, each with its terminator; a last line may
/// lack one.
pub open spec fn lines(s: Seq<char>) -> Seq<Seq<char>>
    decreases s.len(),
{
    if s.len() == 0 {
        Seq::empty()
    } else {
        let n = first_line_len(s);
        seq![s.take(n as int)] + lines(s.skip(n as int))
    }
}

/// The text that `ls` make up, one after the other.
pub open spec fn concat_lines(ls: Seq<Seq<char>>) -> Seq<char>
    decreases ls.len(),
{
    if ls.len() == 0 {
        Seq::empty()
    } else {
        ls[0] + concat_lines(ls.drop_first())
    }
}

/// `metadata` after the lines `ls` of a block, in order.
pub open spec fn declared(metadata: Metadata, ls: Seq<Seq<char>>) -> Metadata
    decreases ls.len(),
{
    if ls.len() == 0 {
        metadata
    } else {
        declared(apply_line(metadata, trimmed(ls[0])), ls.drop_first())
    }
}

/// Whether a line of a block sets `field`.
pub open spec fn sets(line: Seq<char>, field: Field) -> bool {
    entry_of(trimmed(line)) matches Some((found, _)) && found == field
}

/// Whether two metadata hold the same for `field`.
pub open spec fn agree_on(a: Metadata, b: Metadata, field: Field) -> bool {
    match field {
        Field::Description => a.description == b.description,
        Field::ToolsAllowed => a.tools_allowed == b.tools_allowed,
        Field::ToolsBlocked => a.tools_blocked == b.tools_blocked,
        Field::Mode => a.mode == b.mode,
    }
}

/// The document that a result of [`parse_frontmatter`] stands for.
pub open spec fn frontmatter_of(
    result: (Option<String>, Vec<String>, Vec<String>, Option<SubAgentMode>, String),
) -> Frontmatter {
    Frontmatter {
        metadata: Metadata {
            description: result.0.deep_view(),
            tools_allowed: result.1.deep_view(),
            tools_blocked: result.2.deep_view(),
            mode: result.3,
        },
        body: result.4@,
    }
}

/// Reads the lines of an opened block from `rest`, starting from `metadata`.
/// `None` where no closing delimiter follows.
pub open spec fn scan_block(rest: Seq<char>, metadata: Metadata) -> Option<Frontmatter>
    decreases rest.len(),
{
    if rest.len() == 0 {
        None
    } else {
        let n = first_line_len(rest);
        let line = rest.take(n as int);
        if is_marker(line) {
            Some(Frontmatter { metadata, body: rest.skip(n as int) })
        } else {
            scan_block(rest.skip(n as int), apply_line(metadata, trimmed(line)))
        }
    }
}

/// What a document declares. Without an opening delimiter on its first line,
/// or without a closing one after it, the document is plain.
pub open spec fn parsed(content: Seq<char>) -> Frontmatter {
    let n = first_line_len(content);
    if !is_marker(content.take(n as int)) {
        plain(content)
    } else {
        match scan_block(content.skip(n as int), no_metadata()) {
            Some(found) => found,
            None => plain(content),
        }
    }
}

/// A text is its lines, one after the other.
pub proof fn lemma_lines_make_up_text(s: Seq<char>)
    ensures
        concat_lines(lines(s)) == s,
    decreases s.len(),
{
    if s.len() > 0 {
        let n = first_line_len(s) as int;
        lemma_position(s, '\n');
        lemma_lines_make_up_text(s.skip(n));
        assert(lines(s).drop_first() =~= lines(s.skip(n)));
        assert(s.take(n) + s.skip(n) =~= s);
    }
}

/// Where the first delimiter among the lines of `rest` is line `k`, the
/// block declares what the lines before it set, and the body is the lines
/// after it.
pub proof fn lemma_scan_block_closed(rest: Seq<char>, metadata: Metadata, k: int)
    requires
        0 <= k < lines(rest).len(),
        is_marker(lines(rest)[k]),
        forall|i: int| 0 <= i < k ==> !is_marker(#[trigger] lines(rest)[i]),
    ensures
        scan_block(rest, metadata) == Some(
            Frontmatter {
                metadata: declared(metadata, lines(rest).take(k)),
                body: concat_lines(lines(rest).skip(k + 1)),
            },
        ),
    decreases k,
{
    let n = first_line_len(rest) as int;
    let tail = rest.skip(n);
    lemma_position(rest, '\n');
    assert(lines(rest).drop_first() =~= lines(tail));
    assert(lines(rest)[0] == rest.take(n));
    if k == 0 {
        lemma_lines_make_up_text(tail);
        assert(lines(rest).skip(1) =~= lines(tail));
        assert(lines(rest).take(0) =~= Seq::<Seq<char>>::empty());
    } else {
        let next = apply_line(metadata, trimmed(rest.take(n)));
        assert forall|i: int| 0 <= i < k - 1 implies !is_marker(#[trigger] lines(tail)[i]) by {
            assert(lines(tail)[i] == lines(rest)[i + 1]);
        }
        assert(lines(tail)[k - 1] == lines(rest)[k]);
        lemma_scan_block_closed(tail, next, k - 1);
        assert(lines(rest).take(k).drop_first() =~= lines(tail).take(k - 1));
        assert(lines(rest).take(k)[0] == rest.take(n));
        assert(lines(rest).skip(k + 1) =~= lines(tail).skip(k));
    }
}

/// Where no line of `rest` is a delimiter, the block is not closed.
pub proof fn lemma_scan_block_unterminated(rest: Seq<char>, metadata: Metadata)
    requires
        forall|i: int| 0 <= i < lines(rest).len() ==> !is_marker(#[trigger] lines(rest)[i]),
    ensures
        scan_block(rest, metadata) is None,
    decreases rest.len(),
{
    if rest.len() > 0 {
        let n = first_line_len(rest) as int;
        let tail = rest.skip(n);
        lemma_position(rest, '\n');
        assert(lines(rest).drop_first() =~= lines(tail));
        assert(lines(rest)[0] == rest.take(n));
        assert forall|i: int| 0 <= i < lines(tail).len() implies !is_marker(
            #[trigger] lines(tail)[i],
        ) by {
            assert(lines(tail)[i] == lines(rest)[i + 1]);
        }
        lemma_scan_block_unterminated(tail, apply_line(metadata, trimmed(rest.take(n))));
    }
}

/// A field that no line of a block sets stays as it was.
pub proof fn lemma_unset_field_is_kept(metadata: Metadata, ls: Seq<Seq<char>>, field: Field)
    requires
        forall|i: int| 0 <= i < ls.len() ==> !sets(#[trigger] ls[i], field),
    ensures
        agree_on(declared(metadata, ls), metadata, field),
    decreases ls.len(),
{
    if ls.len() > 0 {
        assert(!sets(ls[0], field));
        assert forall|i: int| 0 <= i < ls.drop_first().len() implies !sets(
            #[trigger] ls.drop_first()[i],
            field,
        ) by {
            assert(ls.drop_first()[i] == ls[i + 1]);
        }
        lemma_unset_field_is_kept(apply_line(metadata, trimmed(ls[0])), ls.drop_first(), field);
    }
}

/// The last line of a block that sets a field decides it: the field is
/// what that line alone sets, whatever the lines before it set.
pub proof fn lemma_last_line_decides_field(
    metadata: Metadata,
    ls: Seq<Seq<char>>,
    j: int,
    field: Field,
)
    requires
        0 <= j < ls.len(),
        sets(ls[j], field),
        forall|i: int| j < i < ls.len() ==> !sets(#[trigger] ls[i], field),
    ensures
        agree_on(declared(metadata, ls), apply_line(no_metadata(), trimmed(ls[j])), field),
    decreases j,
{
    let next = apply_line(metadata, trimmed(ls[0]));
    let rest = ls.drop_first();
    if j == 0 {
        assert forall|i: int| 0 <= i < rest.len() implies !sets(#[trigger] rest[i], field) by {
            assert(rest[i] == ls[i + 1]);
        }
        lemma_unset_field_is_kept(next, rest, field);
    } else {
        assert(rest[j - 1] == ls[j]);
        assert forall|i: int| j - 1 < i < rest.len() implies !sets(#[trigger] rest[i], field) by {
            assert(rest[i] == ls[i + 1]);
        }
        lemma_last_line_decides_field(next, rest, j - 1, field);
    }
}

/// The spellings of each mode, and no other value, give that mode.
pub proof fn lemma_mode_spellings(value: Seq<char>)
    ensures
        mode_of(value) == Some(SubAgentMode::ReadOnly) <==> lowercased(trimmed(value))
            == "read-only"@ || lowercased(trimmed(value)) == "readonly"@,
        mode_of(value) == Some(SubAgentMode::FullAuto) <==> lowercased(trimmed(value))
            == "full-auto"@ || lowercased(trimmed(value)) == "full_auto"@,
        mode_of(value) == Some(SubAgentMode::DangerFullAccess) <==> lowercased(trimmed(value))
            == "danger-full-access"@ || lowercased(trimmed(value)) == "danger_full_access"@
            || lowercased(trimmed(value)) == "danger"@,
{
    reveal_strlit("read-only");
    reveal_strlit("readonly");
    reveal_strlit("full-auto");
    reveal_strlit("full_auto");
    reveal_strlit("danger-full-access");
    reveal_strlit("danger_full_access");
    reveal_strlit("danger");
    let word = lowercased(trimmed(value));
    assert("read-only"@[0] == 'r' && "readonly"@[0] == 'r');
    assert("full-auto"@[0] == 'f' && "full_auto"@[0] == 'f');
    assert("danger-full-access"@[0] == 'd' && "danger_full_access"@[0] == 'd' && "danger"@[0]
        == 'd');
}

/// A document whose first line is no delimiter is plain: all of it is body
/// and it declares nothing.
pub proof fn lemma_document_without_opening_is_plain(content: Seq<char>)
    requires
        lines(content).len() == 0 || !is_marker(lines(content)[0]),
    ensures
        parsed(content) == plain(content),
{
    if content.len() > 0 {
        assert(lines(content)[0] == content.take(first_line_len(content) as int));
    } else {
        assert(content.take(0) =~= Seq::<char>::empty());
        assert(trimmed(Seq::<char>::empty()) =~= Seq::<char>::empty());
    }
}

/// A document with no delimiter after its first line is plain, as one that
/// opens no block at all.
pub proof fn lemma_unterminated_document_is_plain(content: Seq<char>)
    requires
        forall|i: int| 1 <= i < lines(content).len() ==> !is_marker(#[trigger] lines(content)[i]),
    ensures
        parsed(content) == plain(content),
{
    let n = first_line_len(content) as int;
    let tail = content.skip(n);
    if content.len() > 0 {
        lemma_position(content, '\n');
        assert(lines(content).drop_first() =~= lines(tail));
        assert forall|i: int| 0 <= i < lines(tail).len() implies !is_marker(
            #[trigger] lines(tail)[i],
        ) by {
            assert(lines(tail)[i] == lines(content)[i + 1]);
        }
    } else {
        assert(tail =~= Seq::<char>::empty());
    }
    lemma_scan_block_unterminated(tail, no_metadata());
}

/// A document whose first line is a delimiter, and whose next delimiter is
/// line `k`, declares what lines 1 to `k - 1` set; its body is the lines
/// after line `k`, each with the terminator it has in the document.
pub proof fn lemma_document_with_block(content: Seq<char>, k: int)
    requires
        1 <= k < lines(content).len(),
        is_marker(lines(content)[0]),
        is_marker(lines(content)[k]),
        forall|i: int| 1 <= i < k ==> !is_marker(#[trigger] lines(content)[i]),
    ensures
        parsed(content) == (Frontmatter {
            metadata: declared(no_metadata(), lines(content).subrange(1, k)),
            body: concat_lines(lines(content).skip(k + 1)),
        }),
{
    let n = first_line_len(content) as int;
    let tail = content.skip(n);
    lemma_position(content, '\n');
    assert(lines(content).drop_first() =~= lines(tail));
    assert(lines(content)[0] == content.take(n));
    assert forall|i: int| 0 <= i < k - 1 implies !is_marker(#[trigger] lines(tail)[i]) by {
        assert(lines(tail)[i] == lines(content)[i + 1]);
    }
    assert(lines(tail)[k - 1] == lines(content)[k]);
    lemma_scan_block_closed(tail, no_metadata(), k - 1);
    assert(lines(tail).take(k - 1) =~= lines(content).subrange(1, k));
    assert(lines(tail).skip(k) =~= lines(content).skip(k + 1));
}

/// The body of a document is the end of its text, character for character:
/// whatever line terminators the text has there, the body has too.
pub proof fn lemma_body_is_end_of_document(content: Seq<char>)
    ensures
        parsed(content).body.is_suffix_of(content),
{
    let n = first_line_len(content) as int;
    lemma_position(content, '\n');
    assert(content.is_suffix_of(content)) by {
        assert(content =~= content.subrange(0, content.len() as int));
    }
    if is_marker(content.take(n)) {
        let tail = content.skip(n);
        lemma_scan_body_is_end(tail, no_metadata());
        if let Some(found) = scan_block(tail, no_metadata()) {
            lemma_suffix_of_tail(found.body, content, n);
        }
    }
}

/// The body that a closed block leaves is the end of the text scanned.
proof fn lemma_scan_body_is_end(rest: Seq<char>, metadata: Metadata)
    ensures
        scan_block(rest, metadata) matches Some(found) ==> found.body.is_suffix_of(rest),
    decreases rest.len(),
{
    if rest.len() > 0 {
        let n = first_line_len(rest) as int;
        let tail = rest.skip(n);
        lemma_position(rest, '\n');
        if is_marker(rest.take(n)) {
            assert(tail =~= rest.subrange(rest.len() - tail.len(), rest.len() as int));
        } else {
            let next = apply_line(metadata, trimmed(rest.take(n)));
            lemma_scan_body_is_end(tail, next);
            if let Some(found) = scan_block(tail, next) {
                lemma_suffix_of_tail(found.body, rest, n);
            }
        }
    }
}

/// The end of a text's tail is an end of the text.
proof fn lemma_suffix_of_tail(end: Seq<char>, s: Seq<char>, n: int)
    requires
        0 <= n <= s.len(),
        end.is_suffix_of(s.skip(n)),
    ensures
        end.is_suffix_of(s),
{
    let tail = s.skip(n);
    assert(end =~= tail.subrange(tail.len() - end.len(), tail.len() as int));
    assert(end =~= s.subrange(s.len() - end.len(), s.len() as int));
}

/// Splits the characters of a comma-separated list into its items.
fn items_of(s: &[char]) -> (items: Vec<String>)
    ensures
        items.deep_view() == list_items(s@),
{
    let mut items: Vec<String> = Vec::new();
    let mut rest: &[char] = s;
    assert(items.deep_view() =~= Seq::<Seq<char>>::empty());
    loop
        invariant_except_break
            items.deep_view() + list_items(rest@) == list_items(s@),
        ensures
            items.deep_view() == list_items(s@),
        decreases rest.len(),
    {
        let n = find_char(rest, ',');
        let item = trim(&rest[0..n]);
        let ghost before = items.deep_view();
        if item.len() > 0 {
            items.push(text_of(item));
            assert(items.deep_view() =~= before + seq![item@]);
        }
        if n < rest.len() {
            assert(items.deep_view() + list_items(rest@.skip(n as int + 1)) =~= before
                + list_items(rest@));
            rest = &rest[n + 1..rest.len()];
        } else {
            assert(items.deep_view() =~= before + list_items(rest@));
            break;
        }
    }
    items
}

/// Splits a comma-separated list: each item trimmed, empty items dropped,
/// order preserved.
pub fn split_list(input: &str) -> (items: Vec<String>)
    ensures
        items.deep_view() == list_items(input@),
{
    let chars = chars_of(input);
    items_of(chars.as_slice())
}

/// Reads a mode from the characters of its spelling.
fn mode_of_chars(value: &[char]) -> (mode: Option<SubAgentMode>)
    ensures
        mode == mode_of(value@),
{
    let word = trim(value);
    if lowercase_is(word, "read-only") || lowercase_is(word, "readonly") {
        Some(SubAgentMode::ReadOnly)
    } else if lowercase_is(word, "full-auto") || lowercase_is(word, "full_auto") {
        Some(SubAgentMode::FullAuto)
    } else if lowercase_is(word, "danger-full-access") || lowercase_is(word, "danger_full_access")
        || lowercase_is(word, "danger") {
        Some(SubAgentMode::DangerFullAccess)
    } else {
        None
    }
}

/// Reads a declared mode. The accepted spellings, in any letter case, are
/// `read-only` and `readonly`; `full-auto` and `full_auto`;
/// `danger-full-access`, `danger_full_access` and `danger`. Any other value
/// gives `None`.
pub fn parse_mode(input: &str) -> (mode: Option<SubAgentMode>)
    ensures
        mode == mode_of(input@),
{
    let chars = chars_of(input);
    mode_of_chars(chars.as_slice())
}

/// Reads the field that a key names.
fn field_of_chars(key: &[char]) -> (field: Option<Field>)
    ensures
        field == field_of(key@),
{
    let word = trim(key);
    if lowercase_is(word, "description") {
        Some(Field::Description)
    } else if lowercase_is(word, "tools_allowed") || lowercase_is(word, "tools-allowed") {
        Some(Field::ToolsAllowed)
    } else if lowercase_is(word, "tools_blocked") || lowercase_is(word, "tools-blocked") {
        Some(Field::ToolsBlocked)
    } else if lowercase_is(word, "mode") {
        Some(Field::Mode)
    } else {
        None
    }
}

/// Removes the quotes that wrap a value.
fn unquote(v: &[char]) -> (r: &[char])
    ensures
        r@ == unquoted(v@),
{
    let len = v.len();
    if len >= 2 && v[0] == v[len - 1] && (v[0] == '"' || v[0] == '\'') {
        &v[1..len - 1]
    } else {
        v
    }
}

/// Reads the field and value of a trimmed metadata line.
fn entry_of_chars(line: &[char]) -> (entry: Option<(Field, &[char])>)
    ensures
        match entry {
            Some((field, value)) => entry_of(line@) == Some((field, value@)),
            None => entry_of(line@) is None,
        },
{
    if line.len() == 0 || line[0] == '#' {
        return None;
    }
    let colon = find_char(line, ':');
    if colon >= line.len() {
        return None;
    }
    match field_of_chars(&line[0..colon]) {
        Some(field) => Some((field, unquote(trim(&line[colon + 1..line.len()])))),
        None => None,
    }
}

/// Whether a line is a block delimiter.
fn is_marker_line(line: &[char]) -> (b: bool)
    ensures
        b == is_marker(line@),
{
    let t = trim(line);
    let b = t.len() == 3 && t[0] == '-' && t[1] == '-' && t[2] == '-';
    assert(b == (t@ =~= seq!['-', '-', '-']));
    b
}

/// Length of the first line of `s`, terminator included.
fn first_line_end(s: &[char]) -> (n: usize)
    ensures
        n == first_line_len(s@),
        n <= s.len(),
        s.len() > 0 ==> n > 0,
{
    let at = find_char(s, '\n');
    if at < s.len() {
        at + 1
    } else {
        s.len()
    }
}

/// The result for a document that is all body.
fn plain_document(content: &str) -> (result: (
    Option<String>,
    Vec<String>,
    Vec<String>,
    Option<SubAgentMode>,
    String,
))
    ensures
        frontmatter_of(result) == plain(content@),
{
    let tools_allowed: Vec<String> = Vec::new();
    let tools_blocked: Vec<String> = Vec::new();
    assert(tools_allowed.deep_view() =~= Seq::<Seq<char>>::empty());
    assert(tools_blocked.deep_view() =~= Seq::<Seq<char>>::empty());
    (None, tools_allowed, tools_blocked, None, content.to_owned())
}

/// Parses the optional metadata block at the start of `content`.
///
/// Returns the description, the allowed tools, the blocked tools, the mode
/// and the body. A block opens with a first line whose trimmed content is
/// `---` and closes with the next such line; the body is the text after the
/// closing line, unchanged. Between the two, blank lines, lines that start
/// with `#`, lines without a colon and unknown keys are skipped. A document
/// that opens no block, or never closes it, is all body.
pub fn parse_frontmatter(content: &str) -> (result: (
    Option<String>,
    Vec<String>,
    Vec<String>,
    Option<SubAgentMode>,
    String,
))
    ensures
        frontmatter_of(result) == parsed(content@),
        result.4@.is_suffix_of(content@),
{
    proof {
        lemma_body_is_end_of_document(content@);
    }
    let chars = chars_of(content);
    let all: &[char] = chars.as_slice();
    let opening = first_line_end(all);
    if !is_marker_line(&all[0..opening]) {
        return plain_document(content);
    }
    let mut description: Option<String> = None;
    let mut tools_allowed: Vec<String> = Vec::new();
    let mut tools_blocked: Vec<String> = Vec::new();
    let mut mode: Option<SubAgentMode> = None;
    let mut rest: &[char] = &all[opening..all.len()];
    let ghost block = rest@;
    assert(rest@ =~= content@.skip(opening as int));
    assert(tools_allowed.deep_view() =~= Seq::<Seq<char>>::empty());
    assert(tools_blocked.deep_view() =~= Seq::<Seq<char>>::empty());
    while rest.len() > 0
        invariant
            is_marker(content@.take(first_line_len(content@) as int)),
            block == content@.skip(first_line_len(content@) as int),
            parsed(content@).body.is_suffix_of(content@),
            scan_block(
                rest@,
                Metadata {
                    description: description.deep_view(),
                    tools_allowed: tools_allowed.deep_view(),
                    tools_blocked: tools_blocked.deep_view(),
                    mode,
                },
            ) == scan_block(block, no_metadata()),
        decreases rest.len(),
    {
        let n = first_line_end(rest);
        let line = &rest[0..n];
        let tail = &rest[n..rest.len()];
        assert(tail@ =~= rest@.skip(n as int));
        assert(line@ =~= rest@.take(n as int));
        if is_marker_line(line) {
            let body = text_of(tail);
            assert(body@ == rest@.skip(n as int));
            return (description, tools_allowed, tools_blocked, mode, body);
        }
        match entry_of_chars(trim(line)) {
            Some((Field::Description, value)) => {
                description = Some(text_of(value));
            },
            Some((Field::ToolsAllowed, value)) => {
                tools_allowed = items_of(value);
            },
            Some((Field::ToolsBlocked, value)) => {
                tools_blocked = items_of(value);
            },
            Some((Field::Mode, value)) => {
                mode = mode_of_chars(value);
            },
            None => {},
        }
        rest = tail;
    }
    plain_document(content)
}

} // verus!
