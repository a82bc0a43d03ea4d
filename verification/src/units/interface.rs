//! Interfaces: long-running child processes that speak a line protocol with
//! the runner. This module holds what describes an interface, the loaded
//! interface, and both directions of the text protocol.

use crate::config::Config;
use crate::text::{
    cfti_escape, cfti_escaped, cfti_unescape, cfti_unescaped, join_from, joined, lowercase,
    push_char, split_tokens, text_is, texts, tokens, unicode_lowercase,
};
use crate::unit::{
    name_result, name_views, parse_name, parse_names, parse_path, UnitDeactivateError,
    UnitDescriptionError, UnitDescriptionErrorView, UnitIncompatibleReason, UnitKind, UnitName,
    UnitNameError, UnitNameView,
};
use crate::unitfile::{
    directive_views, has_category, has_section, lists_section, lookup_by_category,
    parsed_unit_file, parser_error_text, text_view, DirectiveEntry, DirectiveView, FileEntry,
};
use crate::unitlibrary::UnitLibrary;
use crate::unitmanager::{
    ControlContentsView, ManagerControlMessage, ManagerControlMessageContents,
    ManagerStatusMessage, StatusMessageView,
};
use crate::units::{check_jigs, compatibility, names_contain, Dependent};
use vstd::prelude::*;
use vstd::string::*;

verus! {

/// The wire format that an interface speaks.
#[derive(Clone, Copy, Debug, PartialEq, Eq, Structural)]
pub enum InterfaceFormat {
    Text,
    JSON,
}

/// What the description of an interface holds.
pub struct InterfaceDescriptionView {
    pub id: UnitNameView,
    pub name: Seq<char>,
    pub description: Seq<char>,
    /// The jigs that the interface works on; none means every jig.
    pub jigs: Seq<UnitNameView>,
    /// The command line that starts the interface.
    pub exec_start: Seq<char>,
    pub format: InterfaceFormat,
    /// The directory to start the interface in, if the description names one.
    pub working_directory: Option<Seq<char>>,
}

/// The description of an interface, as read from its unit file.
#[derive(Debug, PartialEq, Eq)]
pub struct InterfaceDescription {
    id: UnitName,
    name: String,
    description: String,
    jigs: Vec<UnitName>,
    exec_start: String,
    format: InterfaceFormat,
    working_directory: Option<String>,
}

impl View for InterfaceDescription {
    type V = InterfaceDescriptionView;

    closed spec fn view(&self) -> InterfaceDescriptionView {
        InterfaceDescriptionView {
            id: self.id@,
            name: self.name@,
            description: self.description@,
            jigs: name_views(self.jigs@),
            exec_start: self.exec_start@,
            format: self.format,
            working_directory: text_view(self.working_directory),
        }
    }
}

/// The description that a unit file starts from, before any of its keys is
/// read.
pub open spec fn blank_description(id: UnitNameView) -> InterfaceDescriptionView {
    InterfaceDescriptionView {
        id,
        name: Seq::empty(),
        description: Seq::empty(),
        jigs: Seq::empty(),
        exec_start: Seq::empty(),
        format: InterfaceFormat::Text,
        working_directory: None,
    }
}

/// A value, or the empty text where there is none.
pub open spec fn or_empty(value: Option<Seq<char>>) -> Seq<char> {
    match value {
        Some(v) => v,
        None => Seq::empty(),
    }
}

/// The error for a key of the `[Interface]` section that has no value.
pub open spec fn missing_value(key: Seq<char>) -> UnitDescriptionErrorView {
    UnitDescriptionErrorView::MissingValue("Interface"@, key)
}

/// What one entry of the `[Interface]` section does to the description read
/// so far. Keys that the library does not know, and keys that occur several
/// times, change nothing.
pub open spec fn apply_directive(d: InterfaceDescriptionView, entry: DirectiveView) -> Result<
    InterfaceDescriptionView,
    UnitDescriptionErrorView,
> {
    match entry {
        DirectiveView::Many => Ok(d),
        DirectiveView::Solo(key, value) => {
            if key == "Name"@ {
                Ok(InterfaceDescriptionView { name: or_empty(value), ..d })
            } else if key == "Description"@ {
                Ok(InterfaceDescriptionView { description: or_empty(value), ..d })
            } else if key == "Jigs"@ {
                match value {
                    None => Ok(InterfaceDescriptionView { jigs: Seq::empty(), ..d }),
                    Some(list) => match parse_names(tokens(list, true), UnitKind::Jig) {
                        Ok(jigs) => Ok(InterfaceDescriptionView { jigs, ..d }),
                        Err(e) => Err(UnitDescriptionErrorView::InvalidUnitName(e)),
                    },
                }
            } else if key == "WorkingDirectory"@ {
                Ok(InterfaceDescriptionView { working_directory: Some(or_empty(value)), ..d })
            } else if key == "ExecStart"@ {
                match value {
                    Some(command) => Ok(InterfaceDescriptionView { exec_start: command, ..d }),
                    None => Err(missing_value("ExecStart"@)),
                }
            } else if key == "Format"@ {
                match value {
                    None => Ok(InterfaceDescriptionView { format: InterfaceFormat::Text, ..d }),
                    Some(word) => {
                        let lower = unicode_lowercase(word);
                        if lower == "text"@ {
                            Ok(InterfaceDescriptionView { format: InterfaceFormat::Text, ..d })
                        } else if lower == "json"@ {
                            Ok(InterfaceDescriptionView { format: InterfaceFormat::JSON, ..d })
                        } else {
                            Err(
                                UnitDescriptionErrorView::InvalidValue(
                                    "Interface"@,
                                    "Format"@,
                                    lower,
                                    seq!["text"@, "json"@],
                                ),
                            )
                        }
                    },
                }
            } else {
                Ok(d)
            }
        },
    }
}

/// What the entries do to `d`, one after the other; the first entry that
/// fails decides the error.
pub open spec fn apply_directives(d: InterfaceDescriptionView, entries: Seq<DirectiveView>) -> Result<
    InterfaceDescriptionView,
    UnitDescriptionErrorView,
>
    decreases entries.len(),
{
    if entries.len() == 0 {
        Ok(d)
    } else {
        match apply_directives(d, entries.drop_last()) {
            Err(e) => Err(e),
            Ok(so_far) => apply_directive(so_far, entries.last()),
        }
    }
}

/// The description that the entries of an `[Interface]` section give to the
/// unit `id`. A section that leaves the command line empty is refused.
pub open spec fn described(id: UnitNameView, entries: Seq<DirectiveView>) -> Result<
    InterfaceDescriptionView,
    UnitDescriptionErrorView,
> {
    match apply_directives(blank_description(id), entries) {
        Err(e) => Err(e),
        Ok(d) => if d.exec_start.len() == 0 {
            Err(missing_value("ExecStart"@))
        } else {
            Ok(d)
        },
    }
}

/// Once a prefix of the entries fails, the whole list fails the same way.
pub proof fn lemma_apply_directives_error(
    d: InterfaceDescriptionView,
    entries: Seq<DirectiveView>,
    n: int,
)
    requires
        0 <= n <= entries.len(),
        apply_directives(d, entries.take(n)) is Err,
    ensures
        apply_directives(d, entries) == apply_directives(d, entries.take(n)),
    decreases entries.len() - n,
{
    if n < entries.len() {
        assert(entries.take(n + 1).drop_last() == entries.take(n));
        lemma_apply_directives_error(d, entries, n + 1);
    } else {
        assert(entries.take(n) == entries);
    }
}

/// A result seen through the views of the description and of the error.
pub open spec fn description_result(r: Result<InterfaceDescription, UnitDescriptionError>) -> Result<
    InterfaceDescriptionView,
    UnitDescriptionErrorView,
> {
    match r {
        Ok(d) => Ok(d@),
        Err(e) => Err(e@),
    }
}

/// The value of the last entry of `entries` that stands alone under `key`,
/// if there is one.
pub open spec fn seen(entries: Seq<DirectiveView>, key: Seq<char>) -> Option<Option<Seq<char>>>
    decreases entries.len(),
{
    if entries.len() == 0 {
        None
    } else {
        match entries.last() {
            DirectiveView::Solo(k, value) => if k == key {
                Some(value)
            } else {
                seen(entries.drop_last(), key)
            },
            DirectiveView::Many => seen(entries.drop_last(), key),
        }
    }
}

/// The jigs that a value of the key `Jigs` names.
pub open spec fn jigs_named(value: Option<Option<Seq<char>>>) -> Result<
    Seq<UnitNameView>,
    UnitNameError,
> {
    match value {
        Some(Some(list)) => parse_names(tokens(list, true), UnitKind::Jig),
        _ => Ok(Seq::empty()),
    }
}

/// The format that a value of the key `Format` names, if it names one.
pub open spec fn format_named(value: Option<Option<Seq<char>>>) -> Option<InterfaceFormat> {
    match value {
        Some(Some(word)) => {
            let lower = unicode_lowercase(word);
            if lower == "text"@ {
                Some(InterfaceFormat::Text)
            } else if lower == "json"@ {
                Some(InterfaceFormat::JSON)
            } else {
                None
            }
        },
        _ => Some(InterfaceFormat::Text),
    }
}

/// A value that stands once, or the empty text.
pub open spec fn once_or_empty(value: Option<Option<Seq<char>>>) -> Seq<char> {
    match value {
        Some(Some(v)) => v,
        _ => Seq::empty(),
    }
}

/// The description of the unit `id` that the values under the six keys give,
/// where none of them is refused; `at` gives the value under a key.
pub open spec fn assembled(
    id: UnitNameView,
    at: spec_fn(Seq<char>) -> Option<Option<Seq<char>>>,
) -> InterfaceDescriptionView {
    InterfaceDescriptionView {
        id,
        name: once_or_empty(at("Name"@)),
        description: once_or_empty(at("Description"@)),
        jigs: match jigs_named(at("Jigs"@)) {
            Ok(jigs) => jigs,
            Err(_) => Seq::empty(),
        },
        exec_start: once_or_empty(at("ExecStart"@)),
        format: match format_named(at("Format"@)) {
            Some(format) => format,
            None => InterfaceFormat::Text,
        },
        working_directory: match at("WorkingDirectory"@) {
            Some(value) => Some(or_empty(value)),
            None => None,
        },
    }
}

/// Whether none of the values under the keys `Jigs`, `ExecStart` and
/// `Format` is refused.
pub open spec fn values_accepted(at: spec_fn(Seq<char>) -> Option<Option<Seq<char>>>) -> bool {
    &&& jigs_named(at("Jigs"@)) is Ok
    &&& at("ExecStart"@) != Some(None::<Seq<char>>)
    &&& format_named(at("Format"@)) is Some
}

/// Whether the entry is accepted, whatever was read before it.
pub open spec fn entry_accepted(entry: DirectiveView) -> bool {
    apply_directive(blank_description(UnitNameView { kind: UnitKind::Interface, id: Seq::empty() }), entry)
        is Ok
}

/// Whether all entries are accepted.
pub open spec fn entries_accepted(entries: Seq<DirectiveView>) -> bool {
    forall|i: int| 0 <= i < entries.len() ==> entry_accepted(#[trigger] entries[i])
}

/// The six keys are six different words.
proof fn lemma_keys_differ()
    ensures
        "Name"@ != "Description"@,
        "Name"@ != "Jigs"@,
        "Name"@ != "WorkingDirectory"@,
        "Name"@ != "ExecStart"@,
        "Name"@ != "Format"@,
        "Description"@ != "Jigs"@,
        "Description"@ != "WorkingDirectory"@,
        "Description"@ != "ExecStart"@,
        "Description"@ != "Format"@,
        "Jigs"@ != "WorkingDirectory"@,
        "Jigs"@ != "ExecStart"@,
        "Jigs"@ != "Format"@,
        "WorkingDirectory"@ != "ExecStart"@,
        "WorkingDirectory"@ != "Format"@,
        "ExecStart"@ != "Format"@,
{
    reveal_strlit("Name");
    reveal_strlit("Description");
    reveal_strlit("Jigs");
    reveal_strlit("WorkingDirectory");
    reveal_strlit("ExecStart");
    reveal_strlit("Format");
    assert("Name"@.len() == 4 && "Description"@.len() == 11 && "Jigs"@.len() == 4
        && "WorkingDirectory"@.len() == 16 && "ExecStart"@.len() == 9 && "Format"@.len() == 6);
    assert("Name"@[0] == 'N' && "Jigs"@[0] == 'J');
}

/// Entries that are all accepted give the description that their values
/// give key by key, in whatever order they stand; if one is refused, no
/// description is given.
pub proof fn lemma_applied_by_key(id: UnitNameView, entries: Seq<DirectiveView>)
    ensures
        entries_accepted(entries) ==> apply_directives(blank_description(id), entries) == Ok::<
            InterfaceDescriptionView,
            UnitDescriptionErrorView,
        >(assembled(id, |key: Seq<char>| seen(entries, key))),
        !entries_accepted(entries) ==> apply_directives(blank_description(id), entries) is Err,
        entries_accepted(entries) ==> values_accepted(|key: Seq<char>| seen(entries, key)),
    decreases entries.len(),
{
    lemma_keys_differ();
    let at = |key: Seq<char>| seen(entries, key);
    if entries.len() == 0 {
        assert(assembled(id, at) == blank_description(id));
    } else {
        let before = entries.drop_last();
        let was = |key: Seq<char>| seen(before, key);
        let last = entries.last();
        lemma_applied_by_key(id, before);
        assert forall|key: Seq<char>| #[trigger]
            at(key) == match last {
                DirectiveView::Solo(k, value) => if k == key {
                    Some(value)
                } else {
                    was(key)
                },
                DirectiveView::Many => was(key),
            } by {}
        if entries_accepted(entries) {
            assert forall|i: int| 0 <= i < before.len() implies entry_accepted(
                #[trigger] before[i],
            ) by {
                assert(before[i] == entries[i]);
                assert(entry_accepted(entries[i]));
            }
            assert(entry_accepted(entries[entries.len() - 1]));
            let so_far = assembled(id, was);
            assert(apply_directives(blank_description(id), before) == Ok::<
                InterfaceDescriptionView,
                UnitDescriptionErrorView,
            >(so_far));
            assert(apply_directive(so_far, last) == Ok::<
                InterfaceDescriptionView,
                UnitDescriptionErrorView,
            >(assembled(id, at)));
        } else {
            if entries_accepted(before) {
                assert(!entry_accepted(last)) by {
                    if entry_accepted(last) {
                        assert forall|i: int| 0 <= i < entries.len() implies entry_accepted(
                            #[trigger] entries[i],
                        ) by {
                            if i < before.len() {
                                assert(before[i] == entries[i]);
                            }
                        }
                    }
                }
            }
        }
    }
}

/// The value that a unit file gives to `key` in its `[Interface]` section:
/// `Some` where the key stands once in that section.
pub open spec fn section_value(file: Map<Seq<char>, FileEntry>, key: Seq<char>) -> Option<
    Option<Seq<char>>,
> {
    if file.contains_key(key) && file[key].category == "Interface"@ {
        file[key].value
    } else {
        None
    }
}

/// The description that a unit file gives to the unit `id`, or `None` where
/// a value of it is refused or the command line is missing or empty.
pub open spec fn file_description(id: UnitNameView, file: Map<Seq<char>, FileEntry>) -> Option<
    InterfaceDescriptionView,
> {
    let at = |key: Seq<char>| section_value(file, key);
    if values_accepted(at) && assembled(id, at).exec_start.len() > 0 {
        Some(assembled(id, at))
    } else {
        None
    }
}

/// What a listing of the section holds under a key is what the file holds
/// there.
proof fn lemma_seen_is_section_value(
    listing: Seq<DirectiveView>,
    file: Map<Seq<char>, FileEntry>,
    key: Seq<char>,
    n: int,
)
    requires
        lists_section(listing, file, "Interface"@),
        0 <= n <= listing.len(),
    ensures
        match seen(listing.take(n), key) {
            Some(value) => section_value(file, key) == Some(value) && listing.take(n).contains(
                DirectiveView::Solo(key, value),
            ),
            None => forall|i: int|
                0 <= i < n ==> !(#[trigger] listing[i] matches DirectiveView::Solo(k, _) && k == key),
        },
    decreases n,
{
    let part = listing.take(n);
    if n > 0 {
        lemma_seen_is_section_value(listing, file, key, n - 1);
        assert(part.drop_last() =~= listing.take(n - 1));
        assert(part.last() == listing[n - 1]);
        let shorter = listing.take(n - 1);
        match listing[n - 1] {
            DirectiveView::Solo(k, value) => {
                if k == key {
                    assert(part[n - 1] == DirectiveView::Solo(key, value));
                } else if let Some(v) = seen(shorter, key) {
                    let i = choose|i: int|
                        0 <= i < shorter.len() && shorter[i] == DirectiveView::Solo(key, v);
                    assert(part[i] == DirectiveView::Solo(key, v));
                }
            },
            DirectiveView::Many => {
                if let Some(v) = seen(shorter, key) {
                    let i = choose|i: int|
                        0 <= i < shorter.len() && shorter[i] == DirectiveView::Solo(key, v);
                    assert(part[i] == DirectiveView::Solo(key, v));
                }
            },
        }
    }
}

/// The order in which the entries of the section are handed out does not
/// matter to a unit file that is accepted: every listing of the section
/// gives the description that the file gives key by key. A file with a value
/// that is refused, or without a command line, gives an error for every
/// listing; which one, where several values are refused, depends on the
/// order.
pub proof fn law_unit_file_is_read_key_by_key(
    id: UnitNameView,
    file: Map<Seq<char>, FileEntry>,
    listing: Seq<DirectiveView>,
)
    requires
        lists_section(listing, file, "Interface"@),
    ensures
        match file_description(id, file) {
            Some(description) => described(id, listing) == Ok::<
                InterfaceDescriptionView,
                UnitDescriptionErrorView,
            >(description),
            None => described(id, listing) is Err,
        },
{
    lemma_keys_differ();
    lemma_applied_by_key(id, listing);
    let at = |key: Seq<char>| seen(listing, key);
    let of = |key: Seq<char>| section_value(file, key);
    assert(listing.take(listing.len() as int) =~= listing);
    assert forall|key: Seq<char>| #[trigger] at(key) == of(key) by {
        lemma_seen_is_section_value(listing, file, key, listing.len() as int);
        if seen(listing, key) is None && section_value(file, key) is Some {
            let wanted = DirectiveView::Solo(key, file[key].value->0);
            assert(listing.contains(wanted));
            let i = choose|i: int| 0 <= i < listing.len() && listing[i] == wanted;
            assert(listing[i] matches DirectiveView::Solo(k, _) && k == key);
        }
    }
    assert(at("Name"@) == of("Name"@));
    assert(at("Description"@) == of("Description"@));
    assert(at("Jigs"@) == of("Jigs"@));
    assert(at("WorkingDirectory"@) == of("WorkingDirectory"@));
    assert(at("ExecStart"@) == of("ExecStart"@));
    assert(at("Format"@) == of("Format"@));
    assert(assembled(id, at) == assembled(id, of));
    assert(values_accepted(at) == values_accepted(of));
    if values_accepted(of) && !entries_accepted(listing) {
        let i = choose|i: int| 0 <= i < listing.len() && !entry_accepted(#[trigger] listing[i]);
        match listing[i] {
            DirectiveView::Solo(key, value) => {
                assert(file.contains_key(key) && file[key] == FileEntry {
                    category: "Interface"@,
                    value: Some(value),
                });
                assert(of(key) == Some(value));
            },
            DirectiveView::Many => {},
        }
    }
}

/// What reading a unit file's text for the unit `id` gives. The parser
/// decides whether the text is a unit file and what it holds. A file that is
/// accepted gives its description. A file with a value that is refused, or
/// without a command line, gives the error that reading its section in some
/// order gives: the parser hands out the entries in an order of its own, so
/// where several values are refused any of them may decide the error.
pub open spec fn reads_as(
    id: UnitNameView,
    contents: Seq<char>,
    r: Result<InterfaceDescriptionView, UnitDescriptionErrorView>,
) -> bool {
    match parsed_unit_file(contents) {
        None => r matches Err(UnitDescriptionErrorView::ParseError(_)),
        Some(file) => if !has_section(file, "Interface"@) {
            r == Err::<InterfaceDescriptionView, UnitDescriptionErrorView>(
                UnitDescriptionErrorView::MissingSection("Interface"@),
            )
        } else {
            match file_description(id, file) {
                Some(description) => r == Ok::<InterfaceDescriptionView, UnitDescriptionErrorView>(
                    description,
                ),
                None => r is Err && exists|listing: Seq<DirectiveView>| #[trigger]
                    lists_section(listing, file, "Interface"@) && r == described(id, listing),
            }
        },
    }
}

fn text_or_empty(value: &Option<String>) -> (text: String)
    ensures
        text@ == or_empty(text_view(*value)),
{
    match value {
        Some(v) => v.clone(),
        None => String::new(),
    }
}

impl InterfaceDescription {
    /// Applies one entry of the `[Interface]` section.
    fn apply(&mut self, entry: &DirectiveEntry) -> (r: Result<(), UnitDescriptionError>)
        ensures
            match r {
                Ok(()) => apply_directive(old(self)@, entry@) == Ok::<
                    InterfaceDescriptionView,
                    UnitDescriptionErrorView,
                >(final(self)@),
                Err(e) => apply_directive(old(self)@, entry@) == Err::<
                    InterfaceDescriptionView,
                    UnitDescriptionErrorView,
                >(e@),
            },
    {
        match entry {
            DirectiveEntry::Many => Ok(()),
            DirectiveEntry::Solo(key, value) => {
                if text_is(key.as_str(), "Name") {
                    self.name = text_or_empty(value);
                    Ok(())
                } else if text_is(key.as_str(), "Description") {
                    self.description = text_or_empty(value);
                    Ok(())
                } else if text_is(key.as_str(), "Jigs") {
                    match value {
                        None => {
                            self.jigs = Vec::new();
                            assert(name_views(self.jigs@) =~= Seq::empty());
                            Ok(())
                        },
                        Some(list) => match UnitName::from_list(list.as_str(), UnitKind::Jig) {
                            Ok(jigs) => {
                                self.jigs = jigs;
                                Ok(())
                            },
                            Err(e) => Err(UnitDescriptionError::InvalidUnitName(e)),
                        },
                    }
                } else if text_is(key.as_str(), "WorkingDirectory") {
                    self.working_directory = Some(text_or_empty(value));
                    Ok(())
                } else if text_is(key.as_str(), "ExecStart") {
                    match value {
                        Some(command) => {
                            self.exec_start = command.clone();
                            Ok(())
                        },
                        None => Err(
                            UnitDescriptionError::MissingValue(
                                "Interface".to_owned(),
                                "ExecStart".to_owned(),
                            ),
                        ),
                    }
                } else if text_is(key.as_str(), "Format") {
                    match value {
                        None => {
                            self.format = InterfaceFormat::Text;
                            Ok(())
                        },
                        Some(word) => {
                            let lower = lowercase(word.as_str());
                            if text_is(lower.as_str(), "text") {
                                self.format = InterfaceFormat::Text;
                                Ok(())
                            } else if text_is(lower.as_str(), "json") {
                                self.format = InterfaceFormat::JSON;
                                Ok(())
                            } else {
                                let mut accepted: Vec<String> = Vec::new();
                                accepted.push("text".to_owned());
                                accepted.push("json".to_owned());
                                assert(texts(accepted@) =~= seq!["text"@, "json"@]);
                                Err(
                                    UnitDescriptionError::InvalidValue(
                                        "Interface".to_owned(),
                                        "Format".to_owned(),
                                        lower,
                                        accepted,
                                    ),
                                )
                            }
                        },
                    }
                } else {
                    Ok(())
                }
            },
        }
    }

    /// Builds the description of the unit `id` from the entries of its
    /// `[Interface]` section, read in the order given.
    pub fn from_directives(id: UnitName, entries: &Vec<DirectiveEntry>) -> (r: Result<
        InterfaceDescription,
        UnitDescriptionError,
    >)
        ensures
            description_result(r) == described(id@, directive_views(entries@)),
    {
        let ghost all = directive_views(entries@);
        let ghost blank = blank_description(id@);
        let mut description = InterfaceDescription {
            id,
            name: String::new(),
            description: String::new(),
            jigs: Vec::new(),
            exec_start: String::new(),
            format: InterfaceFormat::Text,
            working_directory: None,
        };
        assert(name_views(description.jigs@) =~= Seq::empty());
        assert(all.take(0) =~= Seq::empty());
        let mut i: usize = 0;
        while i < entries.len()
            invariant
                i <= entries.len(),
                all == directive_views(entries@),
                blank == blank_description(id@),
                apply_directives(blank, all.take(i as int)) == Ok::<
                    InterfaceDescriptionView,
                    UnitDescriptionErrorView,
                >(description@),
            decreases entries.len() - i,
        {
            proof {
                assert(all.take(i + 1).drop_last() == all.take(i as int));
                assert(all.take(i + 1).last() == entries@[i as int]@);
            }
            match description.apply(&entries[i]) {
                Ok(()) => {},
                Err(e) => {
                    proof {
                        assert(apply_directives(blank, all.take(i + 1)) == Err::<
                            InterfaceDescriptionView,
                            UnitDescriptionErrorView,
                        >(e@));
                        lemma_apply_directives_error(blank, all, i + 1);
                    }
                    return Err(e);
                },
            }
            i += 1;
        }
        assert(all.take(entries@.len() as int) == all);
        if description.exec_start.as_str().unicode_len() == 0 {
            Err(UnitDescriptionError::MissingValue("Interface".to_owned(), "ExecStart".to_owned()))
        } else {
            Ok(description)
        }
    }

    /// Reads the description of the unit `id` from the text of its unit file.
    pub fn from_string(id: UnitName, contents: &str) -> (r: Result<
        InterfaceDescription,
        UnitDescriptionError,
    >)
        ensures
            reads_as(id@, contents@, description_result(r)),
    {
        match systemd_parser::parse_string(contents) {
            Err(error) => Err(UnitDescriptionError::ParseError(parser_error_text(&error))),
            Ok(unit) => {
                if !has_category(&unit, "Interface") {
                    Err(UnitDescriptionError::MissingSection("Interface".to_owned()))
                } else {
                    let entries = lookup_by_category(&unit, "Interface");
                    proof {
                        law_unit_file_is_read_key_by_key(
                            id@,
                            parsed_unit_file(contents@)->0,
                            directive_views(entries@),
                        );
                    }
                    Self::from_directives(id, &entries)
                }
            },
        }
    }

    /// Reads the description of the unit whose file lies at `path` and holds
    /// `contents`. The path gives the unit's name, the text the rest.
    pub fn from_path(path: &str, contents: &str) -> (r: Result<
        InterfaceDescription,
        UnitDescriptionError,
    >)
        ensures
            match parse_path(path@) {
                Err(e) => description_result(r) == Err::<
                    InterfaceDescriptionView,
                    UnitDescriptionErrorView,
                >(UnitDescriptionErrorView::InvalidUnitName(e)),
                Ok(id) => reads_as(id, contents@, description_result(r)),
            },
    {
        match UnitName::from_path(path) {
            Err(e) => Err(UnitDescriptionError::InvalidUnitName(e)),
            Ok(id) => Self::from_string(id, contents),
        }
    }

    pub fn id(&self) -> (id: &UnitName)
        ensures
            id@ == self@.id,
    {
        &self.id
    }

    pub fn name(&self) -> (name: &String)
        ensures
            name@ == self@.name,
    {
        &self.name
    }

    pub fn description(&self) -> (description: &String)
        ensures
            description@ == self@.description,
    {
        &self.description
    }

    /// Whether the interface lists the jig `name`.
    pub fn supports_jig(&self, name: &UnitName) -> (r: bool)
        ensures
            r == self@.jigs.contains(name@),
    {
        names_contain(&self.jigs, name)
    }

    /// Whether the interface can be loaded: it lists no jig, or one that it
    /// lists is loaded.
    pub fn is_compatible(&self, library: &UnitLibrary, config: &Config) -> (r: Result<
        (),
        UnitIncompatibleReason,
    >)
        requires
            library.tables_wf(),
        ensures
            r == compatibility(self@.jigs, library@.jigs.live),
    {
        check_jigs(&self.jigs, library)
    }

    /// The interface that this description describes, not yet started, if
    /// the description is compatible.
    pub fn select(&self, library: &UnitLibrary, config: &Config) -> (r: Result<
        Interface,
        UnitIncompatibleReason,
    >)
        requires
            library.tables_wf(),
        ensures
            match r {
                Ok(interface) => compatibility(self@.jigs, library@.jigs.live).is_ok() && interface@
                    == selected_interface(self@),
                Err(reason) => compatibility(self@.jigs, library@.jigs.live) == Err::<
                    (),
                    UnitIncompatibleReason,
                >(reason),
            },
    {
        match self.is_compatible(library, config) {
            Ok(()) => Ok(Interface::new(self, library, config)),
            Err(reason) => Err(reason),
        }
    }
}

impl Dependent for InterfaceDescription {
    open spec fn depends_on(view: InterfaceDescriptionView) -> Seq<UnitNameView> {
        view.jigs
    }

    fn depends(&self, name: &UnitName) -> (r: bool) {
        self.supports_jig(name)
    }
}

/// What a loaded interface holds.
pub struct InterfaceView {
    pub id: UnitNameView,
    pub jigs: Seq<UnitNameView>,
    pub exec_start: Seq<char>,
    pub working_directory: Option<Seq<char>>,
    pub format: InterfaceFormat,
    /// Whether the interface's process has been started.
    pub running: bool,
}

/// The interface that a description describes, before it is started.
pub open spec fn selected_interface(d: InterfaceDescriptionView) -> InterfaceView {
    InterfaceView {
        id: d.id,
        jigs: d.jigs,
        exec_start: d.exec_start,
        working_directory: d.working_directory,
        format: d.format,
        running: false,
    }
}

/// A loaded interface.
#[derive(Debug, PartialEq, Eq)]
pub struct Interface {
    id: UnitName,
    jigs: Vec<UnitName>,
    exec_start: String,
    working_directory: Option<String>,
    format: InterfaceFormat,
    running: bool,
}

impl View for Interface {
    type V = InterfaceView;

    closed spec fn view(&self) -> InterfaceView {
        InterfaceView {
            id: self.id@,
            jigs: name_views(self.jigs@),
            exec_start: self.exec_start@,
            working_directory: text_view(self.working_directory),
            format: self.format,
            running: self.running,
        }
    }
}

/// What is needed to start an interface's process.
#[derive(Debug, PartialEq, Eq)]
pub struct Launch {
    /// The interface to start.
    pub id: UnitName,
    /// The command line to run.
    pub command: String,
    /// The directory to run it in.
    pub directory: String,
    /// The format of what the process writes; lines of a text interface are
    /// to be read and handed to `Interface::text_read`.
    pub format: InterfaceFormat,
    /// The message to post on the control channel once the process runs.
    pub greeting: ManagerControlMessage,
}

/// Whether `launch` is what starting `interface` takes under `config`: the
/// command line of the interface, its directory or else that of `config`,
/// its format, and the greeting in its name.
pub open spec fn is_launch_of(launch: Launch, interface: InterfaceView, config: Config) -> bool {
    &&& launch.id@ == interface.id
    &&& launch.command@ == interface.exec_start
    &&& launch.directory@ == match interface.working_directory {
        Some(directory) => directory,
        None => config.spec_working_directory(),
    }
    &&& launch.format == interface.format
    &&& launch.greeting.sender@ == interface.id
    &&& launch.greeting.contents@ == ControlContentsView::InitialGreeting
}

/// The text of the message that refuses the JSON format.
pub open spec fn json_refusal() -> Seq<char> {
    "JSON format is not implemented"@
}

/// The names, each after a space.
pub open spec fn spaced_names(names: Seq<UnitNameView>) -> Seq<char>
    decreases names.len(),
{
    if names.len() == 0 {
        Seq::empty()
    } else {
        spaced_names(names.drop_last()) + seq![' '] + names.last().text()
    }
}

/// The words that carry `message` in the text format. Free texts are written
/// by the CFTI convention, names as they are.
pub open spec fn text_body(message: StatusMessageView) -> Seq<char> {
    match message {
        StatusMessageView::Jig(name) => "JIG "@ + name.text(),
        StatusMessageView::Hello(id) => "HELLO "@ + cfti_escaped(id),
        StatusMessageView::Scenario(Some(name)) => "SCENARIO "@ + name.text(),
        StatusMessageView::Scenario(None) => "SCENARIO"@,
        StatusMessageView::Scenarios(names) => "SCENARIOS"@ + spaced_names(names),
        StatusMessageView::Describe(class, field, name, value) => "DESCRIBE "@ + cfti_escaped(class)
            + seq![' '] + cfti_escaped(field) + seq![' '] + cfti_escaped(name) + seq![' ']
            + cfti_escaped(value),
    }
}

/// The line that carries `message` in the text format: its words and a line
/// feed.
pub open spec fn text_line(message: StatusMessageView) -> Seq<char> {
    text_body(message).push('\n')
}

/// What an interface answers when asked to write `message`: the line, or why
/// no line can be written.
pub open spec fn output_of(interface: InterfaceView, message: StatusMessageView) -> Result<
    Seq<char>,
    Seq<char>,
> {
    match interface.format {
        InterfaceFormat::JSON => Err(json_refusal()),
        InterfaceFormat::Text => if interface.running {
            Ok(text_line(message))
        } else {
            Err("No process running"@)
        },
    }
}

/// A text result seen through the views of both sides.
pub open spec fn text_result(r: Result<String, String>) -> Result<Seq<char>, Seq<char>> {
    match r {
        Ok(line) => Ok(line@),
        Err(why) => Err(why@),
    }
}

/// The words of a line: its tokens, each decoded by the CFTI convention.
pub open spec fn decoded_words(line: Seq<char>) -> Seq<Seq<char>> {
    tokens(line, false).map_values(|word: Seq<char>| cfti_unescaped(word))
}

/// What a lowercased verb asks for. `operand` is the lowercased first word
/// after the verb (empty if there is none), `rest` all words after the verb.
pub open spec fn control_contents(verb: Seq<char>, operand: Seq<char>, rest: Seq<char>) -> ControlContentsView {
    if verb == "scenarios"@ {
        ControlContentsView::Scenarios
    } else if verb == "scenario"@ {
        match parse_name(operand, UnitKind::Scenario) {
            Ok(name) => ControlContentsView::Scenario(name),
            Err(e) => ControlContentsView::Error("Invalid scenario name: "@ + e.text()),
        }
    } else {
        ControlContentsView::Unimplemented(verb, rest)
    }
}

/// What a line from a text interface asks for, or `None` for a blank line.
pub open spec fn line_contents(line: Seq<char>) -> Option<ControlContentsView> {
    let words = decoded_words(line);
    if words.len() == 0 {
        None
    } else {
        let operand = if words.len() > 1 {
            unicode_lowercase(words[1])
        } else {
            Seq::empty()
        };
        Some(control_contents(unicode_lowercase(words[0]), operand, joined(words.skip(1))))
    }
}

impl Interface {
    pub fn new(description: &InterfaceDescription, library: &UnitLibrary, config: &Config) -> (interface:
        Self)
        ensures
            interface@ == selected_interface(description@),
    {
        Interface {
            id: description.id.clone(),
            jigs: description.jigs.clone(),
            exec_start: description.exec_start.clone(),
            working_directory: match &description.working_directory {
                Some(directory) => Some(directory.clone()),
                None => None,
            },
            format: description.format,
            running: false,
        }
    }

    pub fn id(&self) -> (id: &UnitName)
        ensures
            id@ == self@.id,
    {
        &self.id
    }

    /// Whether the interface's process has been started.
    pub fn is_running(&self) -> (r: bool)
        ensures
            r == self@.running,
    {
        self.running
    }

    /// What starting the interface takes: the command line, the directory
    /// (that of the description, else that of `config`), the format to read
    /// its output in, and the greeting to post once it runs.
    pub fn activate(&self, config: &Config) -> (launch: Launch)
        ensures
            is_launch_of(launch, self@, *config),
    {
        let directory = match &self.working_directory {
            Some(directory) => directory.clone(),
            None => config.working_directory().clone(),
        };
        Launch {
            id: self.id.clone(),
            command: self.exec_start.clone(),
            directory,
            format: self.format,
            greeting: ManagerControlMessage::new(
                &self.id,
                ManagerControlMessageContents::InitialGreeting,
            ),
        }
    }

    /// Records that the interface's process runs.
    pub fn activated(&mut self)
        ensures
            final(self)@ == (InterfaceView { running: true, ..old(self)@ }),
    {
        self.running = true;
    }

    /// Records that the interface's process is to run no longer. Nothing in
    /// this can fail.
    pub fn deactivate(&mut self) -> (r: Result<(), UnitDeactivateError>)
        ensures
            r is Ok,
            final(self)@ == (InterfaceView { running: false, ..old(self)@ }),
    {
        self.running = false;
        Ok(())
    }

    /// The line that carries `message` to the interface, or why none can be
    /// written: the JSON format is refused, and so is an interface without a
    /// process.
    pub fn output_message(&self, message: &ManagerStatusMessage) -> (r: Result<String, String>)
        ensures
            text_result(r) == output_of(self@, message@),
    {
        match self.format {
            InterfaceFormat::Text => self.text_write(message),
            InterfaceFormat::JSON => Self::json_write(message),
        }
    }

    fn json_write(message: &ManagerStatusMessage) -> (r: Result<String, String>)
        ensures
            text_result(r) == Err::<Seq<char>, Seq<char>>(json_refusal()),
    {
        Err("JSON format is not implemented".to_owned())
    }

    fn text_write(&self, message: &ManagerStatusMessage) -> (r: Result<String, String>)
        ensures
            text_result(r) == if self@.running {
                Ok::<Seq<char>, Seq<char>>(text_line(message@))
            } else {
                Err::<Seq<char>, Seq<char>>("No process running"@)
            },
    {
        if !self.running {
            return Err("No process running".to_owned());
        }
        let mut line: String;
        match message {
            ManagerStatusMessage::Jig(name) => {
                line = "JIG ".to_owned();
                line.append(name.to_string().as_str());
            },
            ManagerStatusMessage::Hello(id) => {
                line = "HELLO ".to_owned();
                line.append(cfti_escape(id.as_str()).as_str());
            },
            ManagerStatusMessage::Scenario(name) => match name {
                Some(name) => {
                    line = "SCENARIO ".to_owned();
                    line.append(name.to_string().as_str());
                },
                None => {
                    line = "SCENARIO".to_owned();
                },
            },
            ManagerStatusMessage::Scenarios(names) => {
                line = "SCENARIOS".to_owned();
                let mut i: usize = 0;
                assert(name_views(names@).take(0) =~= Seq::empty());
                while i < names.len()
                    invariant
                        i <= names.len(),
                        line@ == "SCENARIOS"@ + spaced_names(name_views(names@).take(i as int)),
                    decreases names.len() - i,
                {
                    proof {
                        let next = name_views(names@).take(i + 1);
                        assert(next.drop_last() == name_views(names@).take(i as int));
                        assert(next.last() == names@[i as int]@);
                    }
                    push_char(&mut line, ' ');
                    line.append(names[i].to_string().as_str());
                    i += 1;
                }
                assert(name_views(names@).take(names@.len() as int) == name_views(names@));
            },
            ManagerStatusMessage::Describe(class, field, name, value) => {
                line = "DESCRIBE ".to_owned();
                line.append(cfti_escape(class.as_str()).as_str());
                push_char(&mut line, ' ');
                line.append(cfti_escape(field.as_str()).as_str());
                push_char(&mut line, ' ');
                line.append(cfti_escape(name.as_str()).as_str());
                push_char(&mut line, ' ');
                line.append(cfti_escape(value.as_str()).as_str());
            },
        }
        assert(line@ =~= text_body(message@));
        push_char(&mut line, '\n');
        Ok(line)
    }

    /// Decodes a text by the CFTI convention.
    pub fn cfti_unescape(text: String) -> (decoded: String)
        ensures
            decoded@ == cfti_unescaped(text@),
    {
        cfti_unescape(text.as_str())
    }

    /// What a verb asks for. `verb` and `operand` are already in lower case.
    pub fn control_message(verb: &str, operand: &str, rest: String) -> (contents:
        ManagerControlMessageContents)
        ensures
            contents@ == control_contents(verb@, operand@, rest@),
    {
        if text_is(verb, "scenarios") {
            ManagerControlMessageContents::Scenarios
        } else if text_is(verb, "scenario") {
            match UnitName::from_str(operand, UnitKind::Scenario) {
                Ok(name) => ManagerControlMessageContents::Scenario(name),
                Err(e) => {
                    let mut text = "Invalid scenario name: ".to_owned();
                    text.append(e.as_str());
                    ManagerControlMessageContents::Error(text)
                },
            }
        } else {
            ManagerControlMessageContents::Unimplemented(verb.to_owned(), rest)
        }
    }

    /// Reads one line that the text interface `id` wrote: the words are split
    /// at white space and decoded, the first is the verb, in any case. A
    /// blank line gives no message.
    pub fn text_read(id: &UnitName, line: &str) -> (message: Option<ManagerControlMessage>)
        ensures
            match message {
                Some(m) => m.sender == *id && line_contents(line@) == Some(m.contents@),
                None => line_contents(line@).is_none(),
            },
    {
        let raw = split_tokens(line, false);
        let mut words: Vec<String> = Vec::new();
        let mut i: usize = 0;
        let ghost all = decoded_words(line@);
        while i < raw.len()
            invariant
                i <= raw.len(),
                texts(raw@) == tokens(line@, false),
                all == decoded_words(line@),
                texts(words@) =~= all.take(i as int),
            decreases raw.len() - i,
        {
            let word = Self::cfti_unescape(raw[i].clone());
            proof {
                assert(texts(raw@)[i as int] == raw@[i as int]@);
                assert(texts(words@.push(word)) =~= texts(words@).push(word@));
            }
            words.push(word);
            i += 1;
        }
        assert(all.take(raw@.len() as int) == all);
        if words.len() == 0 {
            return None;
        }
        assert(texts(words@)[0] == words@[0]@);
        let verb = lowercase(words[0].as_str());
        let operand = if words.len() > 1 {
            assert(texts(words@)[1] == words@[1]@);
            lowercase(words[1].as_str())
        } else {
            String::new()
        };
        let rest = join_from(&words, 1);
        Some(ManagerControlMessage::new(id, Self::control_message(verb.as_str(), operand.as_str(), rest)))
    }

    /// Reads one line that this interface wrote, or says why it cannot be
    /// read: the JSON format is refused.
    pub fn input_message(&self, line: &str) -> (r: Result<Option<ManagerControlMessage>, String>)
        ensures
            match r {
                Ok(Some(m)) => self@.format == InterfaceFormat::Text && m.sender@ == self@.id
                    && line_contents(line@) == Some(m.contents@),
                Ok(None) => self@.format == InterfaceFormat::Text && line_contents(line@).is_none(),
                Err(why) => self@.format == InterfaceFormat::JSON && why@ == json_refusal(),
            },
    {
        match self.format {
            InterfaceFormat::Text => Ok(Self::text_read(&self.id, line)),
            InterfaceFormat::JSON => Err("JSON format is not implemented".to_owned()),
        }
    }
}

} // verus!
