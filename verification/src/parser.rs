//! The annotation scanner and its grammar.
//!
//! A source document marks a handler with the line `#[rovo]`. The documentation comments right
//! above such a marker may hold annotations, one per line: `@response`, `@tag`, `@security`,
//! `@example`, `@id` and `@hidden`. [`parse_annotations`] finds them all.

use crate::decimal::{parse_u16, u16_of};
use crate::pattern::{match_groups, regex_groups};
use crate::text::{
    chars_of, contains, has_substring, is_text, line_views, lines_of, split_lines, starts_with,
    string_of, strip_leading, trim, trimmed, without_leading,
};
use vstd::prelude::*;

verus! {

/// The line that marks a handler, once trimmed.
pub const MARKER: &'static str = "#[rovo]";

/// What a documentation comment starts with.
pub const DOC_PREFIX: &'static str = "///";

/// The expression for `@response STATUS TYPE DESCRIPTION`.
pub const RESPONSE_PATTERN: &'static str = r"@response\s+(\d+)\s+(\S+)\s*(.*)";

/// The expression for `@tag NAME`.
pub const TAG_PATTERN: &'static str = r"@tag\s+(\S+)";

/// The expression for `@security SCHEME`.
pub const SECURITY_PATTERN: &'static str = r"@security\s+(\S+)";

/// The expression for `@example STATUS VALUE`.
pub const EXAMPLE_PATTERN: &'static str = r"@example\s+(\d+)\s+(.+)";

/// The expression for `@id OPERATION_ID`.
pub const ID_PATTERN: &'static str = r"@id\s+(\S+)";

/// The kinds of annotation.
#[derive(Debug, Clone, Copy, PartialEq, Eq, Structural)]
pub enum AnnotationKind {
    /// `@response`: a response for one status code.
    Response,
    /// `@tag`: the group that the endpoint belongs to.
    Tag,
    /// `@security`: the security scheme that the endpoint asks for.
    Security,
    /// `@example`: an example response.
    Example,
    /// `@id`: the operation's identifier.
    Id,
    /// `@hidden`: the endpoint stays out of the documentation.
    Hidden,
}

/// One annotation, as read from one line of a documentation comment.
#[derive(Debug, Clone)]
pub struct Annotation {
    /// The kind of annotation.
    pub kind: AnnotationKind,
    /// The line that holds the annotation, counted from zero.
    pub line: usize,
    /// The status code of an `@response` or `@example`.
    pub status: Option<u16>,
    /// The response type of an `@response`, such as `Json<User>`.
    pub response_type: Option<String>,
    /// The description of an `@response`.
    pub description: Option<String>,
    /// The name of an `@tag`.
    pub tag_name: Option<String>,
    /// The scheme of an `@security`.
    pub security_scheme: Option<String>,
    /// The value of an `@example`.
    pub example_value: Option<String>,
    /// The identifier of an `@id`.
    pub operation_id: Option<String>,
}

/// The mathematical value of an [`Annotation`].
pub struct AnnotationView {
    pub kind: AnnotationKind,
    pub line: nat,
    pub status: Option<u16>,
    pub response_type: Option<Seq<char>>,
    pub description: Option<Seq<char>>,
    pub tag_name: Option<Seq<char>>,
    pub security_scheme: Option<Seq<char>>,
    pub example_value: Option<Seq<char>>,
    pub operation_id: Option<Seq<char>>,
}

impl AnnotationView {
    /// The annotation of the given kind and line that carries nothing else.
    pub open spec fn bare(kind: AnnotationKind, line: nat) -> AnnotationView {
        AnnotationView {
            kind,
            line,
            status: None,
            response_type: None,
            description: None,
            tag_name: None,
            security_scheme: None,
            example_value: None,
            operation_id: None,
        }
    }

    /// Whether the annotation carries the fields of its kind and no others.
    pub open spec fn well_formed(self) -> bool {
        &&& self.status is Some <==> self.kind == AnnotationKind::Response || self.kind
            == AnnotationKind::Example
        &&& self.response_type is Some <==> self.kind == AnnotationKind::Response
        &&& self.description is Some ==> self.kind == AnnotationKind::Response
        &&& self.tag_name is Some <==> self.kind == AnnotationKind::Tag
        &&& self.security_scheme is Some <==> self.kind == AnnotationKind::Security
        &&& self.example_value is Some <==> self.kind == AnnotationKind::Example
        &&& self.operation_id is Some <==> self.kind == AnnotationKind::Id
    }
}

impl View for Annotation {
    type V = AnnotationView;

    open spec fn view(&self) -> AnnotationView {
        AnnotationView {
            kind: self.kind,
            line: self.line as nat,
            status: self.status,
            response_type: self.response_type.deep_view(),
            description: self.description.deep_view(),
            tag_name: self.tag_name.deep_view(),
            security_scheme: self.security_scheme.deep_view(),
            example_value: self.example_value.deep_view(),
            operation_id: self.operation_id.deep_view(),
        }
    }
}

impl DeepView for Annotation {
    type V = AnnotationView;

    open spec fn deep_view(&self) -> AnnotationView {
        self@
    }
}

impl Annotation {
    /// An annotation of the given kind on the given line, with no field set.
    pub fn new(kind: AnnotationKind, line: usize) -> (annotation: Annotation)
        ensures
            annotation@ == AnnotationView::bare(kind, line as nat),
    {
        Annotation {
            kind,
            line,
            status: None,
            response_type: None,
            description: None,
            tag_name: None,
            security_scheme: None,
            example_value: None,
            operation_id: None,
        }
    }
}

/// The text of capture group `i`, or `None` where the expression has no such group or the group
/// took no part in the match.
pub open spec fn group(groups: Seq<Option<Seq<char>>>, i: int) -> Option<Seq<char>> {
    if 0 <= i < groups.len() {
        groups[i]
    } else {
        None
    }
}

/// Hands out a copy of capture group `i`.
fn group_text(groups: &Vec<Option<String>>, i: usize) -> (text: Option<String>)
    ensures
        text.deep_view() == group(groups.deep_view(), i as int),
{
    if i < groups.len() {
        match &groups[i] {
            Some(s) => Some(s.clone()),
            None => None,
        }
    } else {
        None
    }
}

/// The `@response` annotation that the capture groups of [`RESPONSE_PATTERN`] give: the first
/// group is the status code, the second the response type, the third the description.
pub open spec fn response_of(groups: Option<Seq<Option<Seq<char>>>>, line: nat) -> Option<
    AnnotationView,
> {
    if groups is Some && group(groups->0, 1) is Some && u16_of(group(groups->0, 1)->0) is Some
        && group(groups->0, 2) is Some {
        Some(
            AnnotationView {
                status: u16_of(group(groups->0, 1)->0),
                response_type: group(groups->0, 2),
                description: group(groups->0, 3),
                ..AnnotationView::bare(AnnotationKind::Response, line)
            },
        )
    } else {
        None
    }
}

/// The `@example` annotation that the capture groups of [`EXAMPLE_PATTERN`] give: the first
/// group is the status code, the second the example value.
pub open spec fn example_of(groups: Option<Seq<Option<Seq<char>>>>, line: nat) -> Option<
    AnnotationView,
> {
    if groups is Some && group(groups->0, 1) is Some && u16_of(group(groups->0, 1)->0) is Some
        && group(groups->0, 2) is Some {
        Some(
            AnnotationView {
                status: u16_of(group(groups->0, 1)->0),
                example_value: group(groups->0, 2),
                ..AnnotationView::bare(AnnotationKind::Example, line)
            },
        )
    } else {
        None
    }
}

/// The first capture group, where the expression matched and the group took part.
pub open spec fn token_of(groups: Option<Seq<Option<Seq<char>>>>) -> Option<Seq<char>> {
    match groups {
        Some(g) => group(g, 1),
        None => None,
    }
}

/// The `@tag` annotation that the capture groups of [`TAG_PATTERN`] give.
pub open spec fn tag_of(groups: Option<Seq<Option<Seq<char>>>>, line: nat) -> Option<
    AnnotationView,
> {
    match token_of(groups) {
        Some(name) => Some(
            AnnotationView { tag_name: Some(name), ..AnnotationView::bare(AnnotationKind::Tag, line) },
        ),
        None => None,
    }
}

/// The `@security` annotation that the capture groups of [`SECURITY_PATTERN`] give.
pub open spec fn security_of(groups: Option<Seq<Option<Seq<char>>>>, line: nat) -> Option<
    AnnotationView,
> {
    match token_of(groups) {
        Some(scheme) => Some(
            AnnotationView {
                security_scheme: Some(scheme),
                ..AnnotationView::bare(AnnotationKind::Security, line)
            },
        ),
        None => None,
    }
}

/// The `@id` annotation that the capture groups of [`ID_PATTERN`] give.
pub open spec fn id_of(groups: Option<Seq<Option<Seq<char>>>>, line: nat) -> Option<
    AnnotationView,
> {
    match token_of(groups) {
        Some(id) => Some(
            AnnotationView { operation_id: Some(id), ..AnnotationView::bare(AnnotationKind::Id, line) },
        ),
        None => None,
    }
}

/// Builds an `@response` annotation from the capture groups of [`RESPONSE_PATTERN`].
pub fn response_from_groups(groups: &Option<Vec<Option<String>>>, line_num: usize) -> (annotation:
    Option<Annotation>)
    ensures
        annotation.deep_view() == response_of(groups.deep_view(), line_num as nat),
{
    match groups {
        None => None,
        Some(found) => {
            let digits = match group_text(found, 1) {
                Some(digits) => digits,
                None => { return None; },
            };
            let status = match parse_u16(digits.as_str()) {
                Some(status) => status,
                None => { return None; },
            };
            let response_type = match group_text(found, 2) {
                Some(response_type) => response_type,
                None => { return None; },
            };
            let mut annotation = Annotation::new(AnnotationKind::Response, line_num);
            annotation.status = Some(status);
            annotation.response_type = Some(response_type);
            annotation.description = group_text(found, 3);
            Some(annotation)
        },
    }
}

/// Builds an `@example` annotation from the capture groups of [`EXAMPLE_PATTERN`].
pub fn example_from_groups(groups: &Option<Vec<Option<String>>>, line_num: usize) -> (annotation:
    Option<Annotation>)
    ensures
        annotation.deep_view() == example_of(groups.deep_view(), line_num as nat),
{
    match groups {
        None => None,
        Some(found) => {
            let digits = match group_text(found, 1) {
                Some(digits) => digits,
                None => { return None; },
            };
            let status = match parse_u16(digits.as_str()) {
                Some(status) => status,
                None => { return None; },
            };
            let example_value = match group_text(found, 2) {
                Some(example_value) => example_value,
                None => { return None; },
            };
            let mut annotation = Annotation::new(AnnotationKind::Example, line_num);
            annotation.status = Some(status);
            annotation.example_value = Some(example_value);
            Some(annotation)
        },
    }
}

/// Hands out the first capture group.
fn token_from_groups(groups: &Option<Vec<Option<String>>>) -> (token: Option<String>)
    ensures
        token.deep_view() == token_of(groups.deep_view()),
{
    match groups {
        None => None,
        Some(found) => group_text(found, 1),
    }
}

/// Builds an `@tag` annotation from the capture groups of [`TAG_PATTERN`].
pub fn tag_from_groups(groups: &Option<Vec<Option<String>>>, line_num: usize) -> (annotation:
    Option<Annotation>)
    ensures
        annotation.deep_view() == tag_of(groups.deep_view(), line_num as nat),
{
    match token_from_groups(groups) {
        None => None,
        Some(name) => {
            let mut annotation = Annotation::new(AnnotationKind::Tag, line_num);
            annotation.tag_name = Some(name);
            Some(annotation)
        },
    }
}

/// Builds an `@security` annotation from the capture groups of [`SECURITY_PATTERN`].
pub fn security_from_groups(groups: &Option<Vec<Option<String>>>, line_num: usize) -> (annotation:
    Option<Annotation>)
    ensures
        annotation.deep_view() == security_of(groups.deep_view(), line_num as nat),
{
    match token_from_groups(groups) {
        None => None,
        Some(scheme) => {
            let mut annotation = Annotation::new(AnnotationKind::Security, line_num);
            annotation.security_scheme = Some(scheme);
            Some(annotation)
        },
    }
}

/// Builds an `@id` annotation from the capture groups of [`ID_PATTERN`].
pub fn id_from_groups(groups: &Option<Vec<Option<String>>>, line_num: usize) -> (annotation:
    Option<Annotation>)
    ensures
        annotation.deep_view() == id_of(groups.deep_view(), line_num as nat),
{
    match token_from_groups(groups) {
        None => None,
        Some(id) => {
            let mut annotation = Annotation::new(AnnotationKind::Id, line_num);
            annotation.operation_id = Some(id);
            Some(annotation)
        },
    }
}

/// Reads an `@response` annotation from the content of a documentation line.
pub fn parse_response(content: &str, line_num: usize) -> (annotation: Option<Annotation>)
    ensures
        annotation.deep_view() == response_of(
            regex_groups(RESPONSE_PATTERN@, content@),
            line_num as nat,
        ),
{
    response_from_groups(&match_groups(RESPONSE_PATTERN, content), line_num)
}

/// Reads an `@tag` annotation from the content of a documentation line.
pub fn parse_tag(content: &str, line_num: usize) -> (annotation: Option<Annotation>)
    ensures
        annotation.deep_view() == tag_of(regex_groups(TAG_PATTERN@, content@), line_num as nat),
{
    tag_from_groups(&match_groups(TAG_PATTERN, content), line_num)
}

/// Reads an `@security` annotation from the content of a documentation line.
pub fn parse_security(content: &str, line_num: usize) -> (annotation: Option<Annotation>)
    ensures
        annotation.deep_view() == security_of(
            regex_groups(SECURITY_PATTERN@, content@),
            line_num as nat,
        ),
{
    security_from_groups(&match_groups(SECURITY_PATTERN, content), line_num)
}

/// Reads an `@example` annotation from the content of a documentation line.
pub fn parse_example(content: &str, line_num: usize) -> (annotation: Option<Annotation>)
    ensures
        annotation.deep_view() == example_of(
            regex_groups(EXAMPLE_PATTERN@, content@),
            line_num as nat,
        ),
{
    example_from_groups(&match_groups(EXAMPLE_PATTERN, content), line_num)
}

/// Reads an `@id` annotation from the content of a documentation line.
pub fn parse_id(content: &str, line_num: usize) -> (annotation: Option<Annotation>)
    ensures
        annotation.deep_view() == id_of(regex_groups(ID_PATTERN@, content@), line_num as nat),
{
    id_from_groups(&match_groups(ID_PATTERN, content), line_num)
}

/// What a line says once its comment prefix is gone: the line without its leading slashes,
/// three at a time, and then trimmed.
pub open spec fn doc_content(line: Seq<char>) -> Seq<char> {
    trimmed(without_leading(line, DOC_PREFIX@))
}

/// The annotation that `content` spells. The keyword that `content` begins with picks the
/// kind, the first in this order that fits: `@response`, `@tag`, `@security`, `@example`, `@id`,
/// `@hidden`. Content that begins with none of them spells no annotation, and neither does
/// content whose keyword is not followed by what its kind asks for.
pub open spec fn annotation_of_content(content: Seq<char>, line: nat) -> Option<AnnotationView> {
    if "@response"@.is_prefix_of(content) {
        response_of(regex_groups(RESPONSE_PATTERN@, content), line)
    } else if "@tag"@.is_prefix_of(content) {
        tag_of(regex_groups(TAG_PATTERN@, content), line)
    } else if "@security"@.is_prefix_of(content) {
        security_of(regex_groups(SECURITY_PATTERN@, content), line)
    } else if "@example"@.is_prefix_of(content) {
        example_of(regex_groups(EXAMPLE_PATTERN@, content), line)
    } else if "@id"@.is_prefix_of(content) {
        id_of(regex_groups(ID_PATTERN@, content), line)
    } else if "@hidden"@.is_prefix_of(content) {
        Some(AnnotationView::bare(AnnotationKind::Hidden, line))
    } else {
        None
    }
}

/// The annotation that one line of a documentation comment spells.
pub open spec fn annotation_of_line(line: Seq<char>, line_num: nat) -> Option<AnnotationView> {
    annotation_of_content(doc_content(line), line_num)
}

/// Reads the annotation on a line whose characters are at hand.
fn annotation_in(line: &[char], line_num: usize) -> (annotation: Option<Annotation>)
    ensures
        annotation.deep_view() == annotation_of_line(line@, line_num as nat),
{
    let content = trim(strip_leading(line, DOC_PREFIX));
    if starts_with(content, "@response") {
        parse_response(string_of(content).as_str(), line_num)
    } else if starts_with(content, "@tag") {
        parse_tag(string_of(content).as_str(), line_num)
    } else if starts_with(content, "@security") {
        parse_security(string_of(content).as_str(), line_num)
    } else if starts_with(content, "@example") {
        parse_example(string_of(content).as_str(), line_num)
    } else if starts_with(content, "@id") {
        parse_id(string_of(content).as_str(), line_num)
    } else if starts_with(content, "@hidden") {
        Some(Annotation::new(AnnotationKind::Hidden, line_num))
    } else {
        None
    }
}

/// Reads the annotation on one line of a documentation comment, if the line holds one.
pub fn parse_annotation_line(line: &str, line_num: usize) -> (annotation: Option<Annotation>)
    ensures
        annotation.deep_view() == annotation_of_line(line@, line_num as nat),
{
    let chars = chars_of(line);
    annotation_in(chars.as_slice(), line_num)
}

/// What a line is to the scanner.
#[derive(Debug, Clone, Copy, PartialEq, Eq, Structural)]
pub enum LineKind {
    /// A documentation comment: the trimmed line begins with `///`.
    DocComment,
    /// A marker: the trimmed line is exactly `#[rovo]`.
    Marker,
    /// Nothing but whitespace.
    Blank,
    /// Anything else. Such a line ends a block of documentation.
    Other,
}

/// The kind of a line.
pub open spec fn line_kind(line: Seq<char>) -> LineKind {
    if trimmed(line) == MARKER@ {
        LineKind::Marker
    } else if DOC_PREFIX@.is_prefix_of(trimmed(line)) {
        LineKind::DocComment
    } else if trimmed(line).len() == 0 {
        LineKind::Blank
    } else {
        LineKind::Other
    }
}

/// Classifies a line.
pub fn classify_line(line: &[char]) -> (kind: LineKind)
    ensures
        kind == line_kind(line@),
{
    let t = trim(line);
    if is_text(t, MARKER) {
        LineKind::Marker
    } else if starts_with(t, DOC_PREFIX) {
        LineKind::DocComment
    } else if t.len() == 0 {
        LineKind::Blank
    } else {
        LineKind::Other
    }
}

/// Where the block of documentation above line `marker` begins: the first line of the longest
/// run of documentation comments and blank lines that ends right above `marker`. It is `marker`
/// itself where that run is empty.
pub open spec fn block_start(lines: Seq<Seq<char>>, marker: int) -> int
    decreases marker,
{
    if 0 < marker <= lines.len() && (line_kind(lines[marker - 1]) == LineKind::DocComment
        || line_kind(lines[marker - 1]) == LineKind::Blank) {
        block_start(lines, marker - 1)
    } else {
        marker
    }
}

/// The annotation that line `i` of a block gives: what a documentation comment spells, and
/// nothing for a blank line.
pub open spec fn line_annotation(lines: Seq<Seq<char>>, i: int) -> Option<AnnotationView> {
    if line_kind(lines[i]) == LineKind::DocComment {
        annotation_of_line(trimmed(lines[i]), i as nat)
    } else {
        None
    }
}

/// The annotations of the lines `from..to`, from the top down.
pub open spec fn annotations_between(lines: Seq<Seq<char>>, from: int, to: int) -> Seq<
    AnnotationView,
>
    decreases to - from,
{
    if from >= to {
        Seq::empty()
    } else {
        match line_annotation(lines, to - 1) {
            Some(annotation) => annotations_between(lines, from, to - 1).push(annotation),
            None => annotations_between(lines, from, to - 1),
        }
    }
}

/// The annotations of the block above line `marker`.
pub open spec fn block_annotations(lines: Seq<Seq<char>>, marker: int) -> Seq<AnnotationView> {
    annotations_between(lines, block_start(lines, marker), marker)
}

/// The annotations that the markers among the first `n` lines give: block after block, in the
/// order of the markers.
pub open spec fn annotations_upto(lines: Seq<Seq<char>>, n: int) -> Seq<AnnotationView>
    decreases n,
{
    if n <= 0 {
        Seq::empty()
    } else if line_kind(lines[n - 1]) == LineKind::Marker {
        annotations_upto(lines, n - 1) + block_annotations(lines, n - 1)
    } else {
        annotations_upto(lines, n - 1)
    }
}

/// The annotations of a document.
pub open spec fn annotations_of(content: Seq<char>) -> Seq<AnnotationView> {
    annotations_upto(lines_of(content), lines_of(content).len() as int)
}

/// Classifies every line.
fn classify_lines(lines: &Vec<&[char]>) -> (kinds: Vec<LineKind>)
    ensures
        kinds.len() == lines.len(),
        forall|i: int| 0 <= i < kinds.len() ==> kinds[i] == line_kind(#[trigger] line_views(lines@)[i]),
{
    let mut kinds: Vec<LineKind> = Vec::new();
    let mut i: usize = 0;
    while i < lines.len()
        invariant
            i <= lines.len(),
            kinds.len() == i,
            forall|j: int| 0 <= j < i ==> kinds[j] == line_kind(#[trigger] line_views(lines@)[j]),
        decreases lines.len() - i,
    {
        kinds.push(classify_line(lines[i]));
        i += 1;
    }
    kinds
}

/// Walks up from line `marker` to the start of the block above it.
fn find_block_start(kinds: &Vec<LineKind>, marker: usize, Ghost(lines): Ghost<Seq<Seq<char>>>) -> (start:
    usize)
    requires
        marker < kinds.len(),
        kinds.len() == lines.len(),
        forall|i: int| 0 <= i < kinds.len() ==> kinds[i] == line_kind(#[trigger] lines[i]),
    ensures
        start == block_start(lines, marker as int),
        start <= marker,
{
    let mut start: usize = marker;
    while start > 0 && (kinds[start - 1] == LineKind::DocComment || kinds[start - 1]
        == LineKind::Blank)
        invariant
            start <= marker < kinds.len(),
            kinds.len() == lines.len(),
            forall|i: int| 0 <= i < kinds.len() ==> kinds[i] == line_kind(#[trigger] lines[i]),
            block_start(lines, start as int) == block_start(lines, marker as int),
        decreases start,
    {
        start -= 1;
    }
    start
}

/// Finds every annotation of a document: for each marker line, from the top down, the
/// annotations in the documentation comments right above it, from the top down.
pub fn parse_annotations(content: &str) -> (annotations: Vec<Annotation>)
    ensures
        annotations.deep_view() == annotations_of(content@),
{
    let chars = chars_of(content);
    let lines = split_lines(chars.as_slice());
    let kinds = classify_lines(&lines);
    let ghost texts = line_views(lines@);
    let mut annotations: Vec<Annotation> = Vec::new();
    let mut marker: usize = 0;
    assert(annotations.deep_view() =~= annotations_upto(texts, 0));
    while marker < lines.len()
        invariant
            marker <= lines.len(),
            kinds.len() == lines.len(),
            texts == line_views(lines@),
            forall|i: int| 0 <= i < kinds.len() ==> kinds[i] == line_kind(#[trigger] texts[i]),
            annotations.deep_view() == annotations_upto(texts, marker as int),
        decreases lines.len() - marker,
    {
        if kinds[marker] == LineKind::Marker {
            let start = find_block_start(&kinds, marker, Ghost(texts));
            let ghost before = annotations.deep_view();
            let mut i: usize = start;
            assert(annotations.deep_view() =~= before + annotations_between(
                texts,
                start as int,
                i as int,
            ));
            while i < marker
                invariant
                    start <= i <= marker < lines.len(),
                    kinds.len() == lines.len(),
                    texts == line_views(lines@),
                    forall|k: int|
                        0 <= k < kinds.len() ==> kinds[k] == line_kind(#[trigger] texts[k]),
                    annotations.deep_view() == before + annotations_between(
                        texts,
                        start as int,
                        i as int,
                    ),
                decreases marker - i,
            {
                if kinds[i] == LineKind::DocComment {
                    match annotation_in(trim(lines[i]), i) {
                        Some(annotation) => {
                            assert(annotations.deep_view().push(annotation@) =~= before
                                + annotations_between(texts, start as int, i + 1));
                            let ghost earlier = annotations.deep_view();
                            annotations.push(annotation);
                            assert(annotations.deep_view() =~= earlier.push(annotation@));
                        },
                        None => {},
                    }
                }
                i += 1;
            }
        }
        marker += 1;
    }
    annotations
}

/// Whether a line looks like a marker: it is one, or it holds both `#[` and `rovo` somewhere.
pub open spec fn mentions_marker(line: Seq<char>) -> bool {
    trimmed(line) == MARKER@ || (has_substring(line, "#["@) && has_substring(line, "rovo"@))
}

/// Whether the search for a marker goes on past a line: past documentation comments, attributes
/// and blank lines.
pub open spec fn search_passes(line: Seq<char>) -> bool {
    DOC_PREFIX@.is_prefix_of(trimmed(line)) || "#["@.is_prefix_of(trimmed(line)) || trimmed(
        line,
    ).len() == 0
}

/// How many lines the search for a marker looks at.
pub const SEARCH_WINDOW: usize = 20;

/// Whether a line that looks like a marker stands at line `target` or among the lines that
/// follow it, inside the search window, with nothing but lines that the search passes in
/// between.
pub open spec fn marker_near(lines: Seq<Seq<char>>, target: int) -> bool {
    exists|k: int|
        target <= k < target + SEARCH_WINDOW && k < lines.len() && #[trigger] mentions_marker(
            lines[k],
        ) && forall|j: int| target <= j < k ==> search_passes(#[trigger] lines[j])
}

/// Tests whether line `target_line` of a document stands at or shortly above a marker.
pub fn is_near_rovo_attribute(content: &str, target_line: usize) -> (near: bool)
    ensures
        near == marker_near(lines_of(content@), target_line as int),
{
    let chars = chars_of(content);
    let lines = split_lines(chars.as_slice());
    let ghost texts = line_views(lines@);
    let mut i: usize = target_line;
    while i < lines.len() && i - target_line < SEARCH_WINDOW
        invariant
            target_line <= i,
            texts == line_views(lines@),
            texts == lines_of(content@),
            forall|j: int| target_line <= j < i ==> !mentions_marker(#[trigger] texts[j]),
            forall|j: int| target_line <= j < i ==> search_passes(#[trigger] texts[j]),
        decreases lines.len() - i,
    {
        let line = lines[i];
        let t = trim(line);
        assert(line@ == texts[i as int]);
        if is_text(t, MARKER) || (contains(line, "#[") && contains(line, "rovo")) {
            assert(mentions_marker(texts[i as int]));
            return true;
        }
        if !starts_with(t, DOC_PREFIX) && !starts_with(t, "#[") && t.len() != 0 {
            assert(!search_passes(texts[i as int]));
            return false;
        }
        i += 1;
    }
    false
}

/// Whether annotations stand in the order of their lines, no two on one line.
pub open spec fn lines_ascend(annotations: Seq<AnnotationView>) -> bool {
    forall|i: int, j: int|
        0 <= i < j < annotations.len() ==> (#[trigger] annotations[i]).line
            < (#[trigger] annotations[j]).line
}

/// An annotation carries the number of the line that it was read from, and the fields of its
/// kind and no others.
pub proof fn lemma_annotation_keeps_line(line: Seq<char>, line_num: nat)
    ensures
        annotation_of_line(line, line_num) is Some ==> {
            &&& annotation_of_line(line, line_num)->0.line == line_num
            &&& annotation_of_line(line, line_num)->0.well_formed()
        },
{
}

/// The block above a marker is the longest run of documentation comments and blank lines that
/// ends right above the marker: a blank line does not end the block, and any other line that is
/// no documentation comment does.
pub proof fn lemma_block_is_longest_run(lines: Seq<Seq<char>>, marker: int)
    requires
        0 <= marker <= lines.len(),
    ensures
        0 <= block_start(lines, marker) <= marker,
        forall|i: int|
            block_start(lines, marker) <= i < marker ==> line_kind(#[trigger] lines[i])
                == LineKind::DocComment || line_kind(lines[i]) == LineKind::Blank,
        block_start(lines, marker) > 0 ==> line_kind(lines[block_start(lines, marker) - 1])
            != LineKind::DocComment && line_kind(lines[block_start(lines, marker) - 1])
            != LineKind::Blank,
    decreases marker,
{
    if 0 < marker && (line_kind(lines[marker - 1]) == LineKind::DocComment || line_kind(
        lines[marker - 1],
    ) == LineKind::Blank) {
        lemma_block_is_longest_run(lines, marker - 1);
    }
}

/// A block never reaches up to a line that is neither a documentation comment nor blank.
proof fn lemma_block_starts_below(lines: Seq<Seq<char>>, marker: int, stop: int)
    requires
        0 <= stop < marker <= lines.len(),
        line_kind(lines[stop]) != LineKind::DocComment,
        line_kind(lines[stop]) != LineKind::Blank,
    ensures
        stop < block_start(lines, marker),
    decreases marker,
{
    if stop < marker - 1 && (line_kind(lines[marker - 1]) == LineKind::DocComment || line_kind(
        lines[marker - 1],
    ) == LineKind::Blank) {
        lemma_block_starts_below(lines, marker - 1, stop);
    }
}

/// The annotations of the lines `from..to` stand in the order of their lines, each on a line of
/// `from..to`, and each is what its own line spells.
proof fn lemma_between(lines: Seq<Seq<char>>, from: int, to: int)
    requires
        0 <= from <= to <= lines.len(),
    ensures
        lines_ascend(annotations_between(lines, from, to)),
        forall|k: int|
            0 <= k < annotations_between(lines, from, to).len() ==> {
                let annotation = #[trigger] annotations_between(lines, from, to)[k];
                &&& from <= annotation.line < to
                &&& annotation.well_formed()
                &&& line_annotation(lines, annotation.line as int) == Some(annotation)
            },
    decreases to - from,
{
    if from < to {
        lemma_between(lines, from, to - 1);
        lemma_annotation_keeps_line(trimmed(lines[to - 1]), (to - 1) as nat);
    }
}

/// The last marker among the first `n` lines, or -1 where there is none.
spec fn last_marker(lines: Seq<Seq<char>>, n: int) -> int
    decreases n,
{
    if n <= 0 {
        -1
    } else if line_kind(lines[n - 1]) == LineKind::Marker {
        n - 1
    } else {
        last_marker(lines, n - 1)
    }
}

/// The last marker is a marker.
proof fn lemma_last_marker(lines: Seq<Seq<char>>, n: int)
    requires
        0 <= n <= lines.len(),
    ensures
        -1 <= last_marker(lines, n) < n,
        last_marker(lines, n) >= 0 ==> line_kind(lines[last_marker(lines, n)]) == LineKind::Marker,
    decreases n,
{
    if n > 0 && line_kind(lines[n - 1]) != LineKind::Marker {
        lemma_last_marker(lines, n - 1);
    }
}

/// What the first `n` lines give stands in the order of the lines, above the last marker.
proof fn lemma_upto(lines: Seq<Seq<char>>, n: int)
    requires
        0 <= n <= lines.len(),
    ensures
        lines_ascend(annotations_upto(lines, n)),
        forall|k: int|
            0 <= k < annotations_upto(lines, n).len() ==> {
                let annotation = #[trigger] annotations_upto(lines, n)[k];
                &&& annotation.line < last_marker(lines, n)
                &&& annotation.well_formed()
                &&& line_annotation(lines, annotation.line as int) == Some(annotation)
            },
    decreases n,
{
    if n > 0 {
        lemma_upto(lines, n - 1);
        if line_kind(lines[n - 1]) == LineKind::Marker {
            let earlier = annotations_upto(lines, n - 1);
            let block = block_annotations(lines, n - 1);
            let start = block_start(lines, n - 1);
            lemma_block_is_longest_run(lines, n - 1);
            lemma_between(lines, start, n - 1);
            lemma_last_marker(lines, n - 1);
            if last_marker(lines, n - 1) >= 0 {
                lemma_block_starts_below(lines, n - 1, last_marker(lines, n - 1));
            }
            assert forall|i: int, j: int| 0 <= i < j < (earlier + block).len() implies (
            #[trigger] (earlier + block)[i]).line < (#[trigger] (earlier + block)[j]).line by {
                if j < earlier.len() {
                    assert((earlier + block)[i] == earlier[i]);
                    assert((earlier + block)[j] == earlier[j]);
                } else if i < earlier.len() {
                    assert((earlier + block)[i] == earlier[i]);
                    assert((earlier + block)[j] == block[j - earlier.len()]);
                } else {
                    assert((earlier + block)[i] == block[i - earlier.len()]);
                    assert((earlier + block)[j] == block[j - earlier.len()]);
                }
            }
            assert forall|k: int| 0 <= k < (earlier + block).len() implies {
                let annotation = #[trigger] (earlier + block)[k];
                &&& annotation.line < n - 1
                &&& annotation.well_formed()
                &&& line_annotation(lines, annotation.line as int) == Some(annotation)
            } by {
                if k < earlier.len() {
                    assert((earlier + block)[k] == earlier[k]);
                } else {
                    assert((earlier + block)[k] == block[k - earlier.len()]);
                }
            }
        }
    }
}

/// The scanner's result is in the order of the document: the lines of its annotations ascend,
/// so no two annotations share a line. Each annotation stands on a line of the document, is
/// what that line spells, and carries the fields of its kind and no others.
pub proof fn lemma_annotations_in_document_order(content: Seq<char>)
    ensures
        lines_ascend(annotations_of(content)),
        forall|k: int|
            0 <= k < annotations_of(content).len() ==> {
                let annotation = #[trigger] annotations_of(content)[k];
                &&& annotation.line < lines_of(content).len()
                &&& annotation.well_formed()
                &&& line_annotation(lines_of(content), annotation.line as int) == Some(annotation)
            },
{
    let lines = lines_of(content);
    lemma_upto(lines, lines.len() as int);
    lemma_last_marker(lines, lines.len() as int);
}

/// Whether line `i` belongs to the block above the marker on line `marker`.
pub open spec fn block_holds(lines: Seq<Seq<char>>, marker: int, i: int) -> bool {
    &&& 0 <= marker < lines.len()
    &&& line_kind(lines[marker]) == LineKind::Marker
    &&& block_start(lines, marker) <= i < marker
}

/// Whether line `i` belongs to the block above some marker.
pub open spec fn in_some_block(lines: Seq<Seq<char>>, i: int) -> bool {
    exists|marker: int| block_holds(lines, marker, i)
}

/// What a line of `from..to` spells is among the annotations of `from..to`.
proof fn lemma_between_holds(lines: Seq<Seq<char>>, from: int, to: int, i: int)
    requires
        0 <= from <= i < to <= lines.len(),
        line_annotation(lines, i) is Some,
    ensures
        annotations_between(lines, from, to).contains(line_annotation(lines, i)->0),
    decreases to - from,
{
    let all = annotations_between(lines, from, to);
    if i == to - 1 {
        assert(all[all.len() - 1] == line_annotation(lines, i)->0);
    } else {
        lemma_between_holds(lines, from, to - 1, i);
        let earlier = annotations_between(lines, from, to - 1);
        let k = choose|k: int| 0 <= k < earlier.len() && earlier[k] == line_annotation(lines, i)->0;
        assert(all[k] == earlier[k]);
    }
}

/// What the block above a marker holds is among the annotations of the lines up to `n`, once
/// `n` is past the marker.
proof fn lemma_upto_holds_block(lines: Seq<Seq<char>>, n: int, marker: int, i: int)
    requires
        block_holds(lines, marker, i),
        marker < n <= lines.len(),
        line_annotation(lines, i) is Some,
    ensures
        annotations_upto(lines, n).contains(line_annotation(lines, i)->0),
    decreases n,
{
    let all = annotations_upto(lines, n);
    let earlier = annotations_upto(lines, n - 1);
    if marker == n - 1 {
        let block = block_annotations(lines, marker);
        lemma_block_is_longest_run(lines, marker);
        lemma_between_holds(lines, block_start(lines, marker), marker, i);
        let k = choose|k: int| 0 <= k < block.len() && block[k] == line_annotation(lines, i)->0;
        assert(all[earlier.len() + k] == block[k]);
    } else {
        lemma_upto_holds_block(lines, n - 1, marker, i);
        let k = choose|k: int| 0 <= k < earlier.len() && earlier[k] == line_annotation(lines, i)->0;
        assert(all[k] == earlier[k]);
    }
}

/// Every annotation among those of the lines up to `n` stands in the block above a marker.
proof fn lemma_upto_in_blocks(lines: Seq<Seq<char>>, n: int)
    requires
        0 <= n <= lines.len(),
    ensures
        forall|k: int|
            0 <= k < annotations_upto(lines, n).len() ==> in_some_block(
                lines,
                (#[trigger] annotations_upto(lines, n)[k]).line as int,
            ),
    decreases n,
{
    if n > 0 {
        lemma_upto_in_blocks(lines, n - 1);
        if line_kind(lines[n - 1]) == LineKind::Marker {
            let earlier = annotations_upto(lines, n - 1);
            let block = block_annotations(lines, n - 1);
            lemma_block_is_longest_run(lines, n - 1);
            lemma_between(lines, block_start(lines, n - 1), n - 1);
            assert forall|k: int| 0 <= k < (earlier + block).len() implies in_some_block(
                lines,
                (#[trigger] (earlier + block)[k]).line as int,
            ) by {
                if k < earlier.len() {
                    assert((earlier + block)[k] == earlier[k]);
                } else {
                    assert((earlier + block)[k] == block[k - earlier.len()]);
                    assert(block_holds(lines, n - 1, block[k - earlier.len()].line as int));
                }
            }
        }
    }
}

/// What the scanner finds, said in one sentence: an annotation is among those of a document if
/// and only if it is what some line spells that is a documentation comment in the block above
/// a marker. A blank line inside a block hides nothing above it, and nothing above a line that
/// ends a block is found through that block.
pub proof fn lemma_annotations_are_block_lines(content: Seq<char>, annotation: AnnotationView)
    ensures
        annotations_of(content).contains(annotation) <==> {
            &&& in_some_block(lines_of(content), annotation.line as int)
            &&& line_annotation(lines_of(content), annotation.line as int) == Some(annotation)
        },
{
    let lines = lines_of(content);
    let all = annotations_of(content);
    if all.contains(annotation) {
        let k = choose|k: int| 0 <= k < all.len() && all[k] == annotation;
        lemma_annotations_in_document_order(content);
        lemma_upto_in_blocks(lines, lines.len() as int);
        assert(in_some_block(lines, all[k].line as int));
    }
    if in_some_block(lines, annotation.line as int) && line_annotation(
        lines,
        annotation.line as int,
    ) == Some(annotation) {
        let marker = choose|marker: int| block_holds(lines, marker, annotation.line as int);
        lemma_upto_holds_block(lines, lines.len() as int, marker, annotation.line as int);
    }
}

/// Scanning is a function of the text: two scans of the same text give annotations that are
/// equal by value.
pub proof fn lemma_scan_is_repeatable(
    content: &str,
    again: &str,
    first: Vec<Annotation>,
    second: Vec<Annotation>,
)
    requires
        content@ == again@,
        call_ensures(parse_annotations, (content,), first),
        call_ensures(parse_annotations, (again,), second),
    ensures
        first.deep_view() == second.deep_view(),
{
}

} // verus!
