//! Unit files: the INI-like text that describes a unit. The text is parsed by
//! the `systemd_parser` crate; this module states what the library relies on.

use vstd::prelude::*;
use vstd::string::*;

verus! {

/// A parsed unit file, opaque to the verifier.
#[verifier::external_type_specification]
#[verifier::external_body]
pub struct ExSystemdUnit(systemd_parser::items::SystemdUnit);

/// The error of the unit file parser, opaque to the verifier.
#[verifier::external_type_specification]
#[verifier::external_body]
pub struct ExParserError(systemd_parser::errors::ParserError);

/// What a unit file holds under one key: the section that the key stands in,
/// and, if the key occurs once, its value (`None` for a key without a value).
/// `value` is `None` for a key that occurs several times.
pub struct FileEntry {
    pub category: Seq<char>,
    pub value: Option<Option<Seq<char>>>,
}

/// The entries of a parsed unit file, by key.
pub uninterp spec fn unit_directives(unit: systemd_parser::items::SystemdUnit) -> Map<
    Seq<char>,
    FileEntry,
>;

/// What `systemd_parser::parse_string` makes of a text: the entries by key,
/// or `None` where it reports an error.
pub uninterp spec fn parsed_unit_file(contents: Seq<char>) -> Option<Map<Seq<char>, FileEntry>>;

/// Trusted: `systemd_parser::parse_string` is a function of its input. Its
/// result is named, not defined; the grammar is the parser's.
pub assume_specification[ systemd_parser::parse_string ](input: &str) -> (r: Result<
    systemd_parser::items::SystemdUnit,
    systemd_parser::errors::ParserError,
>)
    ensures
        match r {
            Ok(unit) => parsed_unit_file(input@) == Some(unit_directives(unit)),
            Err(_) => parsed_unit_file(input@).is_none(),
        },
;

/// One entry of a section, as the library reads it.
#[derive(Debug, PartialEq, Eq)]
pub enum DirectiveEntry {
    /// A key that occurs once, with its value if it has one.
    Solo(String, Option<String>),
    /// A key that occurs several times.
    Many,
}

/// A `DirectiveEntry` with its texts as character sequences.
pub enum DirectiveView {
    Solo(Seq<char>, Option<Seq<char>>),
    Many,
}

/// The view of an optional text.
pub open spec fn text_view(text: Option<String>) -> Option<Seq<char>> {
    match text {
        Some(t) => Some(t@),
        None => None,
    }
}

impl View for DirectiveEntry {
    type V = DirectiveView;

    open spec fn view(&self) -> DirectiveView {
        match self {
            DirectiveEntry::Solo(key, value) => DirectiveView::Solo(key@, text_view(*value)),
            DirectiveEntry::Many => DirectiveView::Many,
        }
    }
}

/// The views of a sequence of entries.
pub open spec fn directive_views(entries: Seq<DirectiveEntry>) -> Seq<DirectiveView> {
    entries.map_values(|e: DirectiveEntry| e@)
}

/// Whether some key of `file` stands in the section `category`.
pub open spec fn has_section(file: Map<Seq<char>, FileEntry>, category: Seq<char>) -> bool {
    exists|key: Seq<char>| #[trigger] file.contains_key(key) && file[key].category == category
}

/// Whether `listing` lists the section `category` of `file`: its single-valued
/// entries are exactly the keys of that section that occur once, each with
/// its value and none twice. The order is left open.
pub open spec fn lists_section(
    listing: Seq<DirectiveView>,
    file: Map<Seq<char>, FileEntry>,
    category: Seq<char>,
) -> bool {
    &&& forall|i: int|
        0 <= i < listing.len() ==> (#[trigger] listing[i] matches DirectiveView::Solo(key, value)
            ==> file.contains_key(key) && file[key] == FileEntry { category, value: Some(value) })
    &&& forall|key: Seq<char>| #[trigger]
        file.contains_key(key) && file[key].category == category && file[key].value is Some
            ==> listing.contains(DirectiveView::Solo(key, file[key].value->0))
    &&& forall|i: int, j: int|
        0 <= i < j < listing.len() ==> (#[trigger] listing[i] matches DirectiveView::Solo(a, _)
            ==> (#[trigger] listing[j] matches DirectiveView::Solo(b, _) ==> a != b))
}

/// Trusted: calls `SystemdUnit::has_category`, which tells whether any entry
/// stands in the section.
#[verifier::external_body]
pub(crate) fn has_category(unit: &systemd_parser::items::SystemdUnit, category: &str) -> (r: bool)
    ensures
        r == has_section(unit_directives(*unit), category@),
{
    unit.has_category(category)
}

/// Trusted: calls `SystemdUnit::lookup_by_category`, which hands out the
/// entries of one section in the order of a hash map walk, and copies each
/// into the library's own type.
#[verifier::external_body]
pub(crate) fn lookup_by_category(unit: &systemd_parser::items::SystemdUnit, category: &str) -> (entries:
    Vec<DirectiveEntry>)
    ensures
        lists_section(directive_views(entries@), unit_directives(*unit), category@),
{
    unit.lookup_by_category(category).into_iter().map(
        |entry|
            match entry {
                systemd_parser::items::DirectiveEntry::Solo(directive) => DirectiveEntry::Solo(
                    directive.key().to_owned(),
                    directive.value().map(str::to_owned),
                ),
                systemd_parser::items::DirectiveEntry::Many(_) => DirectiveEntry::Many,
            },
    ).collect()
}

/// Trusted: renders the parser's error with its `Display` impl. Nothing is
/// claimed of the text.
#[verifier::external_body]
pub(crate) fn parser_error_text(error: &systemd_parser::errors::ParserError) -> String {
    format!("{}", error)
}

} // verus!
