//! Qualified names: the grammar of `scope:identifier`, the validated [`Name`]
//! type, and what holds of parsing.

use vstd::prelude::*;
use vstd::std_specs::cmp::PartialEqSpecImpl;
use vstd::string::*;
use vstd::utf8::is_ascii_chars;

verus! {

/// The character that parts the scope of a qualified name from its identifier.
pub const SEPARATOR: char = ':';


/// An ASCII lowercase letter: the only kind of character a segment may start
/// with.
pub open spec fn is_segment_start(c: char) -> bool {
    'a' <= c <= 'z'
}

/// An ASCII letter or digit, or an underscore: what may follow the first
/// character of a segment.
pub open spec fn is_segment_char(c: char) -> bool {
    ||| 'a' <= c <= 'z'
    ||| 'A' <= c <= 'Z'
    ||| '0' <= c <= '9'
    ||| c == '_'
}

/// The segment grammar: not empty, a lowercase letter first, then letters,
/// digits and underscores.
pub open spec fn is_valid_segment(s: Seq<char>) -> bool {
    &&& s.len() > 0
    &&& is_segment_start(s[0])
    &&& forall|i: int| 1 <= i < s.len() ==> is_segment_char(#[trigger] s[i])
}

/// `s` has a separator at `at`, with a valid segment on either side of it.
pub open spec fn splits_at(s: Seq<char>, at: int) -> bool {
    &&& 0 <= at < s.len()
    &&& s[at] == SEPARATOR
    &&& is_valid_segment(s.subrange(0, at))
    &&& is_valid_segment(s.subrange(at + 1, s.len() as int))
}

/// The grammar of a qualified name: `scope:identifier`.
pub open spec fn is_qualified_name(s: Seq<char>) -> bool {
    exists|at: int| splits_at(s, at)
}

/// Where the separator of a qualified name stands.
pub open spec fn separator_of(s: Seq<char>) -> int {
    choose|at: int| splits_at(s, at)
}

/// The part of a qualified name before its separator.
pub open spec fn scope_of(s: Seq<char>) -> Seq<char> {
    s.subrange(0, separator_of(s))
}

/// The part of a qualified name from its separator on, the separator included.
pub open spec fn unqualified_of(s: Seq<char>) -> Seq<char> {
    s.subrange(separator_of(s), s.len() as int)
}

/// A character of a valid segment is an ASCII character, and never the
/// separator.
pub proof fn lemma_segment_has_no_separator(s: Seq<char>, i: int)
    requires
        is_valid_segment(s),
        0 <= i < s.len(),
    ensures
        s[i] != SEPARATOR,
        '\0' <= s[i] <= '\u{7f}',
{
}

/// A string splits into two valid segments at one place at most.
pub proof fn lemma_split_is_unique(s: Seq<char>, at: int, other: int)
    requires
        splits_at(s, at),
        splits_at(s, other),
    ensures
        at == other,
{
    if at < other {
        lemma_segment_has_no_separator(s.subrange(0, other), at);
    } else if other < at {
        lemma_segment_has_no_separator(s.subrange(0, at), other);
    }
}

/// Every character of a valid segment is ASCII.
pub proof fn lemma_segment_is_ascii(s: Seq<char>)
    requires
        is_valid_segment(s),
    ensures
        is_ascii_chars(s),
{
    assert forall|i: int| 0 <= i < s.len() implies '\0' <= #[trigger] s[i] <= '\u{7f}' by {
        lemma_segment_has_no_separator(s, i);
    }
}

fn is_start_byte(byte: u8) -> (yes: bool)
    ensures
        yes == is_segment_start(byte as char),
{
    'a' as u8 <= byte && byte <= 'z' as u8
}

fn is_segment_byte(byte: u8) -> (yes: bool)
    ensures
        yes == is_segment_char(byte as char),
{
    ('a' as u8 <= byte && byte <= 'z' as u8) || ('A' as u8 <= byte && byte <= 'Z' as u8) || ('0' as u8
        <= byte && byte <= '9' as u8) || byte == '_' as u8
}

/// Checks one segment of a name, the scope or the identifier, against the
/// segment grammar.
pub fn is_valid_name_segment(segment: &str) -> (valid: bool)
    ensures
        valid == is_valid_segment(segment@),
{
    broadcast use is_ascii_spec_bytes;

    if !segment.is_ascii() {
        proof {
            if is_valid_segment(segment@) {
                lemma_segment_is_ascii(segment@);
            }
        }
        return false;
    }
    let bytes = segment.as_bytes();
    let len = bytes.len();
    if len == 0 {
        return false;
    }
    if !is_start_byte(bytes[0]) {
        return false;
    }
    let mut i: usize = 1;
    while i < len
        invariant
            1 <= i <= len,
            len == segment@.len(),
            bytes@ == segment.spec_bytes(),
            is_ascii(segment),
            forall|j: int| 1 <= j < i ==> is_segment_char(#[trigger] segment@[j]),
        decreases len - i,
    {
        if !is_segment_byte(bytes[i]) {
            return false;
        }
        i += 1;
    }
    true
}

/// A validated qualified name, `scope:identifier`.
///
/// A `Name` is only made by [`Name::new`], and never changes afterwards, so
/// every `Name` that executable code holds satisfies [`Name::well_formed`].
/// Two names are equal when their qualified strings are, and names are
/// ordered as their qualified strings are: the string is the first field,
/// and it fixes the second.
#[derive(Debug, Hash, PartialOrd, Ord)]
pub struct Name {
    name: String,
    separator: usize,
}

impl View for Name {
    type V = Seq<char>;

    /// The qualified string.
    closed spec fn view(&self) -> Seq<char> {
        self.name@
    }
}

impl Name {
    /// The qualified string meets the grammar, and the stored separator
    /// position is the place where it splits.
    #[verifier::type_invariant]
    pub closed spec fn well_formed(&self) -> bool {
        splits_at(self.name@, self.separator as int)
    }

    /// Parses a qualified name. Returns `None` unless `name` has the form
    /// `scope:identifier` with both parts meeting the segment grammar.
    pub fn new(name: &str) -> (result: Option<Name>)
        ensures
            result is Some <==> is_qualified_name(name@),
            result matches Some(parsed) ==> parsed@ == name@ && parsed.well_formed(),
    {
        broadcast use is_ascii_spec_bytes;

        if !name.is_ascii() {
            proof {
                if is_qualified_name(name@) {
                    lemma_qualified_name_is_ascii(name@);
                }
            }
            return None;
        }
        let bytes = name.as_bytes();
        let len = bytes.len();
        let mut separator: usize = 0;
        while separator < len && bytes[separator] != SEPARATOR as u8
            invariant
                separator <= len,
                len == name@.len(),
                bytes@ == name.spec_bytes(),
                is_ascii(name),
                forall|j: int| 0 <= j < separator ==> name@[j] != SEPARATOR,
            decreases len - separator,
        {
            separator += 1;
        }
        if separator == len {
            assert(!is_qualified_name(name@)) by {
                if is_qualified_name(name@) {
                    assert(name@[separator_of(name@)] == SEPARATOR);
                }
            }
            return None;
        }
        let scope = name.substring_ascii(0, separator);
        let identifier = name.substring_ascii(separator + 1, len);
        if !is_valid_name_segment(scope) || !is_valid_name_segment(identifier) {
            proof {
                if is_qualified_name(name@) {
                    lemma_separator_is_first(name@, separator as int);
                }
            }
            return None;
        }
        Some(Name { name: name.to_owned(), separator })
    }

    /// The scope: the part before the separator.
    pub fn scope(&self) -> (scope: &str)
        ensures
            scope@ == scope_of(self@),
            is_valid_segment(scope@),
    {
        proof {
            use_type_invariant(self);
            lemma_split_is_unique(self.name@, self.separator as int, separator_of(self.name@));
            lemma_qualified_name_is_ascii(self.name@);
        }
        self.name.as_str().substring_ascii(0, self.separator)
    }

    /// The name without its scope. The separator is part of it: for
    /// `scope:identifier` this is `:identifier`.
    pub fn unqualified(&self) -> (unqualified: &str)
        ensures
            unqualified@ == unqualified_of(self@),
            unqualified@.len() >= 2,
            unqualified@[0] == SEPARATOR,
            is_valid_segment(unqualified@.subrange(1, unqualified@.len() as int)),
    {
        broadcast use is_ascii_spec_bytes;

        proof {
            use_type_invariant(self);
            lemma_split_is_unique(self.name@, self.separator as int, separator_of(self.name@));
            lemma_qualified_name_is_ascii(self.name@);
        }
        let name = self.name.as_str();
        let bytes = name.as_bytes();
        assert(is_ascii(name));
        let unqualified = name.substring_ascii(self.separator, bytes.len());
        assert(unqualified@.subrange(1, unqualified@.len() as int) == self.name@.subrange(
            self.separator + 1,
            self.name@.len() as int,
        ));
        unqualified
    }

    /// The full qualified name, `scope:identifier`.
    pub fn qualified(&self) -> (qualified: &str)
        ensures
            qualified@ == self@,
            is_qualified_name(qualified@),
    {
        proof {
            use_type_invariant(self);
        }
        self.name.as_str()
    }

    /// The name that a string known to meet the grammar stands for.
    pub fn from_static(name: &'static str) -> (parsed: Name)
        requires
            is_qualified_name(name@),
        ensures
            parsed@ == name@,
            parsed.well_formed(),
    {
        Name::new(name).expect("invalid name")
    }
}

impl Clone for Name {
    fn clone(&self) -> (copy: Self)
        ensures
            copy == *self,
    {
        proof {
            use_type_invariant(self);
        }
        Name { name: self.name.clone(), separator: self.separator }
    }
}

impl PartialEq for Name {
    fn eq(&self, other: &Self) -> (equal: bool) {
        self.name == other.name
    }
}

impl PartialEqSpecImpl for Name {
    open spec fn obeys_eq_spec() -> bool {
        true
    }

    open spec fn eq_spec(&self, other: &Self) -> bool {
        self@ == other@
    }
}

impl Eq for Name {

}

impl AsRef<str> for Name {
    fn as_ref(&self) -> (qualified: &str)
        ensures
            qualified@ == self@,
    {
        self.qualified()
    }
}

/// The qualified name made of a scope and an identifier.
pub open spec fn qualify(scope: Seq<char>, identifier: Seq<char>) -> Seq<char> {
    scope.push(SEPARATOR) + identifier
}

/// How many separators a string holds.
pub open spec fn count_separators(s: Seq<char>) -> nat
    decreases s.len(),
{
    if s.len() == 0 {
        0
    } else if s.last() == SEPARATOR {
        count_separators(s.drop_last()) + 1
    } else {
        count_separators(s.drop_last())
    }
}

/// Two valid segments with a separator between them are a qualified name,
/// and the name's scope and unqualified part give the two segments back, the
/// second behind the separator.
pub proof fn lemma_segments_make_a_name(scope: Seq<char>, identifier: Seq<char>)
    requires
        is_valid_segment(scope),
        is_valid_segment(identifier),
    ensures
        is_qualified_name(qualify(scope, identifier)),
        scope_of(qualify(scope, identifier)) == scope,
        unqualified_of(qualify(scope, identifier)) == seq![SEPARATOR] + identifier,
{
    let name = qualify(scope, identifier);
    let at = scope.len() as int;
    assert(splits_at(name, at));
    lemma_split_is_unique(name, at, separator_of(name));
}

/// A string whose separator at `at` has an invalid segment on one side is no
/// qualified name, whatever else it holds.
pub proof fn lemma_invalid_segment_is_rejected(s: Seq<char>, at: int)
    requires
        0 <= at < s.len(),
        s[at] == SEPARATOR,
        !is_valid_segment(s.subrange(0, at)) || !is_valid_segment(
            s.subrange(at + 1, s.len() as int),
        ),
    ensures
        !is_qualified_name(s),
{
    if is_qualified_name(s) {
        let other = separator_of(s);
        if at < other {
            lemma_segment_has_no_separator(s.subrange(0, other), at);
        } else if other < at {
            lemma_segment_has_no_separator(s.subrange(other + 1, s.len() as int), at - other - 1);
        }
    }
}

/// A string without a separator, or with two or more, is no qualified name.
pub proof fn lemma_separator_count_is_rejected(s: Seq<char>)
    requires
        count_separators(s) != 1,
    ensures
        !is_qualified_name(s),
{
    if is_qualified_name(s) {
        let at = separator_of(s);
        let scope = s.subrange(0, at);
        let identifier = s.subrange(at + 1, s.len() as int);
        assert(s == scope.push(SEPARATOR) + identifier);
        lemma_segment_counts_no_separator(scope);
        lemma_segment_counts_no_separator(identifier);
        assert(scope.push(SEPARATOR).drop_last() == scope);
        lemma_count_separators_adds(scope.push(SEPARATOR), identifier);
    }
}

/// A valid segment counts no separator.
proof fn lemma_segment_counts_no_separator(s: Seq<char>)
    requires
        is_valid_segment(s),
    ensures
        count_separators(s) == 0,
{
    assert forall|i: int| 0 <= i < s.len() implies s[i] != SEPARATOR by {
        lemma_segment_has_no_separator(s, i);
    }
    lemma_counts_no_separator(s);
}

/// A string that holds no separator counts none.
proof fn lemma_counts_no_separator(s: Seq<char>)
    requires
        forall|i: int| 0 <= i < s.len() ==> s[i] != SEPARATOR,
    ensures
        count_separators(s) == 0,
    decreases s.len(),
{
    if s.len() > 0 {
        lemma_counts_no_separator(s.drop_last());
    }
}

/// The separators of a string are those of its parts.
proof fn lemma_count_separators_adds(left: Seq<char>, right: Seq<char>)
    ensures
        count_separators(left + right) == count_separators(left) + count_separators(right),
    decreases right.len(),
{
    if right.len() > 0 {
        assert((left + right).drop_last() == left + right.drop_last());
        lemma_count_separators_adds(left, right.drop_last());
    }
}

/// Round trip: the qualified string of a name meets the grammar, so parsing
/// it gives a name again, and one with the same qualified string.
pub proof fn lemma_name_parses_again(name: Name)
    requires
        name.well_formed(),
    ensures
        is_qualified_name(name@),
{
}

/// Every character of a qualified name is ASCII.
pub proof fn lemma_qualified_name_is_ascii(s: Seq<char>)
    requires
        is_qualified_name(s),
    ensures
        is_ascii_chars(s),
{
    let at = separator_of(s);
    assert forall|i: int| 0 <= i < s.len() implies '\0' <= #[trigger] s[i] <= '\u{7f}' by {
        if i < at {
            lemma_segment_has_no_separator(s.subrange(0, at), i);
        } else if i > at {
            lemma_segment_has_no_separator(s.subrange(at + 1, s.len() as int), i - at - 1);
        }
    }
}

/// A string can only split at its first separator.
pub proof fn lemma_separator_is_first(s: Seq<char>, first: int)
    requires
        is_qualified_name(s),
        0 <= first < s.len(),
        s[first] == SEPARATOR,
        forall|j: int| 0 <= j < first ==> s[j] != SEPARATOR,
    ensures
        separator_of(s) == first,
{
    let at = separator_of(s);
    if first < at {
        lemma_segment_has_no_separator(s.subrange(0, at), first);
    }
}

} // verus!
