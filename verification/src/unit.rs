//! Unit names and the errors that units report.

use crate::text::{
    chars_of, find_last, last_index_of, lemma_last_index_of, push_char, range_is, split_tokens,
    string_of_range, texts, tokens,
};
use vstd::prelude::*;
use vstd::string::*;

verus! {

/// The four kinds of unit.
#[derive(Clone, Copy, Debug, PartialEq, Eq, Structural, Hash)]
pub enum UnitKind {
    Jig,
    Interface,
    Test,
    Scenario,
}

impl UnitKind {
    /// The kind's word, which is also the extension of its unit files.
    pub open spec fn text(self) -> Seq<char> {
        match self {
            UnitKind::Jig => "jig"@,
            UnitKind::Interface => "interface"@,
            UnitKind::Test => "test"@,
            UnitKind::Scenario => "scenario"@,
        }
    }

    /// The kind that `word` names, if any.
    pub open spec fn named(word: Seq<char>) -> Option<UnitKind> {
        if word == "jig"@ {
            Some(UnitKind::Jig)
        } else if word == "interface"@ {
            Some(UnitKind::Interface)
        } else if word == "test"@ {
            Some(UnitKind::Test)
        } else if word == "scenario"@ {
            Some(UnitKind::Scenario)
        } else {
            None
        }
    }

    /// The four words differ, so each kind is found again from its word.
    pub proof fn lemma_named_text(self)
        ensures
            Self::named(self.text()) == Some(self),
            last_index_of(self.text(), '.') == -1,
            self.text().len() > 0,
    {
        reveal_strlit("jig");
        reveal_strlit("interface");
        reveal_strlit("test");
        reveal_strlit("scenario");
        reveal_with_fuel(last_index_of, 10);
        assert("jig"@.len() == 3 && "interface"@.len() == 9 && "test"@.len() == 4 && "scenario"@.len()
            == 8);
    }

    pub fn as_str(&self) -> (word: &'static str)
        ensures
            word@ == self.text(),
    {
        match self {
            UnitKind::Jig => "jig",
            UnitKind::Interface => "interface",
            UnitKind::Test => "test",
            UnitKind::Scenario => "scenario",
        }
    }

    /// The kind that `chars[from..to]` names.
    pub fn from_range(chars: &Vec<char>, from: usize, to: usize) -> (kind: Option<UnitKind>)
        requires
            from <= to <= chars.len(),
        ensures
            kind == Self::named(chars@.subrange(from as int, to as int)),
    {
        if range_is(chars, from, to, "jig") {
            Some(UnitKind::Jig)
        } else if range_is(chars, from, to, "interface") {
            Some(UnitKind::Interface)
        } else if range_is(chars, from, to, "test") {
            Some(UnitKind::Test)
        } else if range_is(chars, from, to, "scenario") {
            Some(UnitKind::Scenario)
        } else {
            None
        }
    }
}

/// Why a text is not a unit name.
#[derive(Clone, Copy, Debug, PartialEq, Eq, Structural)]
pub enum UnitNameError {
    /// Nothing stands before the kind.
    MissingIdentifier,
    /// A path whose file name has no extension.
    MissingKind,
    /// The extension is not the word of any kind.
    UnknownKind,
    /// The extension names another kind than the one asked for.
    WrongKind,
}

impl UnitNameError {
    pub open spec fn text(self) -> Seq<char> {
        match self {
            UnitNameError::MissingIdentifier => "missing identifier"@,
            UnitNameError::MissingKind => "missing unit kind"@,
            UnitNameError::UnknownKind => "unknown unit kind"@,
            UnitNameError::WrongKind => "wrong unit kind"@,
        }
    }

    pub fn as_str(&self) -> (message: &'static str)
        ensures
            message@ == self.text(),
    {
        match self {
            UnitNameError::MissingIdentifier => "missing identifier",
            UnitNameError::MissingKind => "missing unit kind",
            UnitNameError::UnknownKind => "unknown unit kind",
            UnitNameError::WrongKind => "wrong unit kind",
        }
    }
}

/// The name of a unit: its kind and its identifier.
#[derive(Debug, PartialEq, Eq, Hash)]
pub struct UnitName {
    kind: UnitKind,
    id: String,
}

/// What a `UnitName` stands for.
pub struct UnitNameView {
    pub kind: UnitKind,
    pub id: Seq<char>,
}

impl UnitNameView {
    /// The name as it is written: identifier, a dot, the kind's word.
    pub open spec fn text(self) -> Seq<char> {
        self.id + seq!['.'] + self.kind.text()
    }
}

impl View for UnitName {
    type V = UnitNameView;

    closed spec fn view(&self) -> UnitNameView {
        UnitNameView { kind: self.kind, id: self.id@ }
    }
}

impl Clone for UnitName {
    fn clone(&self) -> (copy: Self)
        ensures
            copy == *self,
    {
        UnitName { kind: self.kind, id: self.id.clone() }
    }
}

/// The views of a sequence of names.
pub open spec fn name_views(names: Seq<UnitName>) -> Seq<UnitNameView> {
    names.map_values(|n: UnitName| n@)
}

/// What `text` names when read against the kind `kind`: the identifier is all
/// that stands before the last dot, and what follows it must be the word of
/// `kind`; a text without a dot is a bare identifier of that kind.
pub open spec fn parse_name(text: Seq<char>, kind: UnitKind) -> Result<UnitNameView, UnitNameError> {
    let dot = last_index_of(text, '.');
    if dot < 0 {
        if text.len() == 0 {
            Err(UnitNameError::MissingIdentifier)
        } else {
            Ok(UnitNameView { kind, id: text })
        }
    } else {
        match UnitKind::named(text.subrange(dot + 1, text.len() as int)) {
            None => Err(UnitNameError::UnknownKind),
            Some(found) => if found != kind {
                Err(UnitNameError::WrongKind)
            } else if dot == 0 {
                Err(UnitNameError::MissingIdentifier)
            } else {
                Ok(UnitNameView { kind, id: text.subrange(0, dot) })
            },
        }
    }
}

/// What a list of words names, each read against `kind`; the first word that
/// is no name decides the error.
pub open spec fn parse_names(words: Seq<Seq<char>>, kind: UnitKind) -> Result<
    Seq<UnitNameView>,
    UnitNameError,
>
    decreases words.len(),
{
    if words.len() == 0 {
        Ok(Seq::empty())
    } else {
        match parse_names(words.drop_last(), kind) {
            Err(e) => Err(e),
            Ok(names) => match parse_name(words.last(), kind) {
                Err(e) => Err(e),
                Ok(name) => Ok(names.push(name)),
            },
        }
    }
}

/// What a path names: the file name is what follows the last `/`, its
/// extension (after the last dot) gives the kind and its stem the identifier.
pub open spec fn parse_path(path: Seq<char>) -> Result<UnitNameView, UnitNameError> {
    let slash = last_index_of(path, '/');
    let file = path.subrange(slash + 1, path.len() as int);
    let dot = last_index_of(file, '.');
    if dot < 0 {
        Err(UnitNameError::MissingKind)
    } else {
        match UnitKind::named(file.subrange(dot + 1, file.len() as int)) {
            None => Err(UnitNameError::UnknownKind),
            Some(kind) => if dot == 0 {
                Err(UnitNameError::MissingIdentifier)
            } else {
                Ok(UnitNameView { kind, id: file.subrange(0, dot) })
            },
        }
    }
}

/// A parse result seen through the view of the name.
pub open spec fn name_result(r: Result<UnitName, UnitNameError>) -> Result<UnitNameView, UnitNameError> {
    match r {
        Ok(name) => Ok(name@),
        Err(e) => Err(e),
    }
}

/// A list parse result seen through the views of the names.
pub open spec fn names_result(r: Result<Vec<UnitName>, UnitNameError>) -> Result<
    Seq<UnitNameView>,
    UnitNameError,
> {
    match r {
        Ok(names) => Ok(name_views(names@)),
        Err(e) => Err(e),
    }
}

impl UnitName {
    pub fn kind(&self) -> (kind: UnitKind)
        ensures
            kind == self@.kind,
    {
        self.kind
    }

    pub fn id(&self) -> (id: &String)
        ensures
            id@ == self@.id,
    {
        &self.id
    }

    /// Whether two names are the same: both kind and identifier match.
    pub fn same(&self, other: &UnitName) -> (r: bool)
        ensures
            r == (self@ == other@),
    {
        let r = self.kind == other.kind && self.id == other.id;
        proof {
            if self@ == other@ {
                assert(self.id@ == other.id@);
            }
        }
        r
    }

    /// Reads the name in `chars[from..to]` against the kind `kind`.
    fn from_range(chars: &Vec<char>, from: usize, to: usize, kind: UnitKind) -> (r: Result<
        UnitName,
        UnitNameError,
    >)
        requires
            from <= to <= chars.len(),
        ensures
            name_result(r) == parse_name(chars@.subrange(from as int, to as int), kind),
    {
        let ghost text = chars@.subrange(from as int, to as int);
        let piece = string_of_range(chars, from, to);
        let part = chars_of(piece.as_str());
        assert(part@ == text);
        match find_last(&part, '.') {
            None => {
                if part.len() == 0 {
                    Err(UnitNameError::MissingIdentifier)
                } else {
                    Ok(UnitName { kind, id: piece })
                }
            },
            Some(dot) => {
                proof {
                    lemma_last_index_of(text, '.');
                }
                match UnitKind::from_range(&part, dot + 1, part.len()) {
                    None => Err(UnitNameError::UnknownKind),
                    Some(found) => {
                        if found != kind {
                            Err(UnitNameError::WrongKind)
                        } else if dot == 0 {
                            Err(UnitNameError::MissingIdentifier)
                        } else {
                            Ok(UnitName { kind, id: string_of_range(&part, 0, dot) })
                        }
                    },
                }
            },
        }
    }

    /// Reads `text` as a name of the kind `kind`: a bare identifier, or an
    /// identifier followed by a dot and the word of that kind.
    pub fn from_str(text: &str, kind: UnitKind) -> (r: Result<UnitName, UnitNameError>)
        ensures
            name_result(r) == parse_name(text@, kind),
    {
        let chars = chars_of(text);
        assert(chars@.subrange(0, chars@.len() as int) == chars@);
        Self::from_range(&chars, 0, chars.len(), kind)
    }

    /// Reads a list of names of the kind `kind`, separated by commas or white
    /// space.
    pub fn from_list(text: &str, kind: UnitKind) -> (r: Result<Vec<UnitName>, UnitNameError>)
        ensures
            names_result(r) == parse_names(tokens(text@, true), kind),
    {
        let words = split_tokens(text, true);
        let mut names: Vec<UnitName> = Vec::new();
        let mut i: usize = 0;
        let ghost all = tokens(text@, true);
        assert(all.take(0) == Seq::<Seq<char>>::empty());
        assert(name_views(names@) == Seq::<UnitNameView>::empty());
        while i < words.len()
            invariant
                i <= words.len(),
                texts(words@) == all,
                all == tokens(text@, true),
                parse_names(all.take(i as int), kind) == Ok::<Seq<UnitNameView>, UnitNameError>(
                    name_views(names@),
                ),
            decreases words.len() - i,
        {
            proof {
                assert(all.take(i + 1).drop_last() == all.take(i as int));
                assert(all.take(i + 1).last() == words@[i as int]@);
            }
            match Self::from_str(words[i].as_str(), kind) {
                Err(e) => {
                    proof {
                        lemma_parse_names_error(all, i + 1, kind);
                    }
                    return Err(e);
                },
                Ok(name) => {
                    assert(name_views(names@.push(name)) == name_views(names@).push(name@));
                    names.push(name);
                },
            }
            i += 1;
        }
        assert(all.take(words@.len() as int) == all);
        Ok(names)
    }

    /// Reads the name of the unit that the file at `path` describes.
    pub fn from_path(path: &str) -> (r: Result<UnitName, UnitNameError>)
        ensures
            name_result(r) == parse_path(path@),
    {
        let chars = chars_of(path);
        let start = match find_last(&chars, '/') {
            None => 0,
            Some(slash) => {
                proof {
                    lemma_last_index_of(chars@, '/');
                }
                slash + 1
            },
        };
        let ghost file = chars@.subrange(start as int, chars@.len() as int);
        let name = string_of_range(&chars, start, chars.len());
        let part = chars_of(name.as_str());
        match find_last(&part, '.') {
            None => Err(UnitNameError::MissingKind),
            Some(dot) => {
                proof {
                    lemma_last_index_of(file, '.');
                }
                match UnitKind::from_range(&part, dot + 1, part.len()) {
                    None => Err(UnitNameError::UnknownKind),
                    Some(kind) => {
                        if dot == 0 {
                            Err(UnitNameError::MissingIdentifier)
                        } else {
                            Ok(UnitName { kind, id: string_of_range(&part, 0, dot) })
                        }
                    },
                }
            },
        }
    }

    /// The name as it is written: identifier, a dot, the kind's word.
    pub fn to_string(&self) -> (text: String)
        ensures
            text@ == self@.text(),
    {
        let mut text = self.id.clone();
        push_char(&mut text, '.');
        text.append(self.kind.as_str());
        text
    }
}

/// Once a prefix of the words fails, the whole list fails the same way.
pub proof fn lemma_parse_names_error(words: Seq<Seq<char>>, n: int, kind: UnitKind)
    requires
        0 <= n <= words.len(),
        parse_names(words.take(n), kind) is Err,
    ensures
        parse_names(words, kind) == parse_names(words.take(n), kind),
    decreases words.len() - n,
{
    if n < words.len() {
        assert(words.take(n + 1).drop_last() == words.take(n));
        lemma_parse_names_error(words, n + 1, kind);
    } else {
        assert(words.take(n) == words);
    }
}

/// Why a unit cannot be loaded on this system.
#[derive(Clone, Copy, Debug, PartialEq, Eq, Structural)]
pub enum UnitIncompatibleReason {
    /// None of the jigs that the unit lists is loaded.
    IncompatibleJig,
}

impl UnitIncompatibleReason {
    pub open spec fn text(self) -> Seq<char> {
        "IncompatibleJig"@
    }

    pub fn to_string(&self) -> (message: String)
        ensures
            message@ == self.text(),
    {
        "IncompatibleJig".to_owned()
    }
}

/// Why a unit could not be started, in the words of whoever tried.
#[derive(Debug, PartialEq, Eq)]
pub struct UnitActivateError {
    pub message: String,
}

/// Why a unit could not be stopped, in the words of whoever tried.
#[derive(Debug, PartialEq, Eq)]
pub struct UnitDeactivateError {
    pub message: String,
}

/// Why a unit file does not describe a unit.
#[derive(Debug, PartialEq, Eq)]
pub enum UnitDescriptionError {
    /// The file's path does not name a unit, or a name in the file is none.
    InvalidUnitName(UnitNameError),
    /// The text is not a unit file; the parser's words are attached.
    ParseError(String),
    /// The named section is not in the file.
    MissingSection(String),
    /// A key that needs a value has none: section, key.
    MissingValue(String, String),
    /// A value is not among those accepted: section, key, value, accepted.
    InvalidValue(String, String, String, Vec<String>),
}

/// A `UnitDescriptionError` with its texts as character sequences.
pub enum UnitDescriptionErrorView {
    InvalidUnitName(UnitNameError),
    ParseError(Seq<char>),
    MissingSection(Seq<char>),
    MissingValue(Seq<char>, Seq<char>),
    InvalidValue(Seq<char>, Seq<char>, Seq<char>, Seq<Seq<char>>),
}

impl View for UnitDescriptionError {
    type V = UnitDescriptionErrorView;

    open spec fn view(&self) -> UnitDescriptionErrorView {
        match self {
            UnitDescriptionError::InvalidUnitName(e) => UnitDescriptionErrorView::InvalidUnitName(*e),
            UnitDescriptionError::ParseError(text) => UnitDescriptionErrorView::ParseError(text@),
            UnitDescriptionError::MissingSection(section) => UnitDescriptionErrorView::MissingSection(
                section@,
            ),
            UnitDescriptionError::MissingValue(section, key) => UnitDescriptionErrorView::MissingValue(
                section@,
                key@,
            ),
            UnitDescriptionError::InvalidValue(section, key, value, accepted) => UnitDescriptionErrorView::InvalidValue(
                section@,
                key@,
                value@,
                texts(accepted@),
            ),
        }
    }
}

/// The last dot of a text that ends in a dot and a dotless word is that dot.
proof fn lemma_last_dot(stem: Seq<char>, word: Seq<char>)
    requires
        last_index_of(word, '.') == -1,
    ensures
        last_index_of(stem + seq!['.'] + word, '.') == stem.len(),
    decreases word.len(),
{
    let text = stem + seq!['.'] + word;
    if word.len() == 0 {
        assert(text.last() == '.');
    } else {
        assert(text.last() == word.last());
        assert(text.drop_last() =~= stem + seq!['.'] + word.drop_last());
        lemma_last_dot(stem, word.drop_last());
    }
}

/// A name that is written out reads back as itself: for every name with an
/// identifier that is not empty, reading what `to_string` writes, against the
/// kind of the name, gives the name.
pub proof fn law_written_name_reads_back(name: UnitNameView)
    requires
        name.id.len() > 0,
    ensures
        parse_name(name.text(), name.kind) == Ok::<UnitNameView, UnitNameError>(name),
{
    name.kind.lemma_named_text();
    lemma_last_dot(name.id, name.kind.text());
    let text = name.text();
    let dot = name.id.len() as int;
    assert(text.subrange(dot + 1, text.len() as int) =~= name.kind.text());
    assert(text.subrange(0, dot) =~= name.id);
}

} // verus!
