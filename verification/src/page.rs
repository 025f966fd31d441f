use vstd::prelude::*;
use vstd::string::StringSliceAdditionalSpecFns;
use vstd::utf8::encode_utf8;

verus! {

/// The name under which a page's script announces the page identifier.
pub const PAGE_ID_MARKER: &'static str = "WIKIREQUEST.info.pageId";

/// The text that stands before the page identifier in the script.
pub const PAGE_ID_ASSIGNMENT: &'static str = "WIKIREQUEST.info.pageId = ";

/// The byte that ends the page identifier: a semicolon.
pub const STATEMENT_END: u8 = 59;

/// What a script says of the page identifier.
#[derive(Clone, Copy, Debug, PartialEq, Eq, Structural)]
pub enum PageId {
    /// The script does not mention the page identifier.
    Absent,
    /// The script mentions the page identifier but does not assign it a
    /// number that can be read.
    Malformed,
    /// The script assigns this page identifier.
    Found(u32),
}

/// `pattern` stands in `text` at place `at`.
pub open spec fn occurs_at(text: Seq<u8>, pattern: Seq<u8>, at: int) -> bool {
    &&& 0 <= at
    &&& at + pattern.len() <= text.len()
    &&& text.subrange(at, at + pattern.len()) == pattern
}

/// `at` is the first place of `text` at which `pattern` stands.
pub open spec fn is_first_occurrence(text: Seq<u8>, pattern: Seq<u8>, at: int) -> bool {
    &&& occurs_at(text, pattern, at)
    &&& forall|b: int| 0 <= b < at ==> !occurs_at(text, pattern, b)
}

/// The first place of `text` at which `pattern` stands, if there is one.
pub open spec fn first_occurrence(text: Seq<u8>, pattern: Seq<u8>) -> Option<int> {
    if exists|at: int| is_first_occurrence(text, pattern, at) {
        Some(choose|at: int| is_first_occurrence(text, pattern, at))
    } else {
        None
    }
}

/// The number ends before place `i` of `text`: a semicolon stands there,
/// or the next occurrence of `pattern` begins there.
pub open spec fn ends_at(text: Seq<u8>, pattern: Seq<u8>, i: int) -> bool {
    0 <= i < text.len() && (text[i] == STATEMENT_END || occurs_at(text, pattern, i))
}

/// `n` is the length of the piece of `text` that stands before the first
/// semicolon and before the next occurrence of `pattern`; where there is
/// neither, the piece is the whole text.
pub open spec fn is_piece_length(text: Seq<u8>, pattern: Seq<u8>, n: int) -> bool {
    &&& 0 <= n <= text.len()
    &&& forall|i: int| 0 <= i < n ==> !ends_at(text, pattern, i)
    &&& n < text.len() ==> ends_at(text, pattern, n)
}

/// The piece of `text` that stands before the first semicolon and before
/// the next occurrence of `pattern`.
pub open spec fn piece(text: Seq<u8>, pattern: Seq<u8>) -> Seq<u8> {
    text.subrange(0, choose|n: int| is_piece_length(text, pattern, n))
}

/// The byte is a decimal digit.
pub open spec fn is_digit(byte: u8) -> bool {
    48 <= byte <= 57
}

/// Every byte of the text is a decimal digit.
pub open spec fn all_digits(text: Seq<u8>) -> bool {
    forall|i: int| 0 <= i < text.len() ==> is_digit(#[trigger] text[i])
}

/// The number that the decimal digits of the text write.
pub open spec fn decimal_value(digits: Seq<u8>) -> nat
    decreases digits.len(),
{
    if digits.len() == 0 {
        0
    } else {
        (10 * decimal_value(digits.drop_last()) + (digits.last() - 48)) as nat
    }
}

/// The text without the plus sign that it may begin with.
pub open spec fn unsigned_part(text: Seq<u8>) -> Seq<u8> {
    if text.len() > 0 && text[0] == 43 {
        text.subrange(1, text.len() as int)
    } else {
        text
    }
}

/// The number that the text writes: decimal digits, at least one, after at
/// most one plus sign, with a value that a `u32` holds.
pub open spec fn number_of(text: Seq<u8>) -> Option<u32> {
    let digits = unsigned_part(text);
    if digits.len() > 0 && all_digits(digits) && decimal_value(digits) <= u32::MAX {
        Some(decimal_value(digits) as u32)
    } else {
        None
    }
}

/// What the script `script` says of the page identifier, where `marker`
/// is the name of the identifier and `assignment` the text that stands
/// before its number.
pub open spec fn page_id_by(script: Seq<u8>, marker: Seq<u8>, assignment: Seq<u8>) -> PageId {
    if first_occurrence(script, marker) is None {
        PageId::Absent
    } else {
        match first_occurrence(script, assignment) {
            None => PageId::Malformed,
            Some(at) => match number_of(
                piece(script.subrange(at + assignment.len(), script.len() as int), assignment),
            ) {
                Some(id) => PageId::Found(id),
                None => PageId::Malformed,
            },
        }
    }
}

/// What the script `script` says of the page identifier.
pub open spec fn page_id_of(script: Seq<u8>) -> PageId {
    page_id_by(script, PAGE_ID_MARKER.spec_bytes(), PAGE_ID_ASSIGNMENT.spec_bytes())
}

/// A script element of a page.
#[derive(Clone, Debug, PartialEq, Eq)]
pub struct Script {
    /// Whether the element names a source: such a script has no text of its
    /// own that counts.
    pub external: bool,
    /// The text that the element begins with, if it begins with text.
    pub text: Option<String>,
}

/// The mathematical content of a [`Script`].
pub struct ScriptView {
    /// Whether the element names a source.
    pub external: bool,
    /// The text that the element begins with.
    pub text: Option<Seq<char>>,
}

impl View for Script {
    type V = ScriptView;

    open spec fn view(&self) -> ScriptView {
        ScriptView {
            external: self.external,
            text: match self.text {
                Some(text) => Some(text@),
                None => None,
            },
        }
    }
}

/// The views of the scripts of a list, in order.
pub open spec fn scripts_of(scripts: Seq<Script>) -> Seq<ScriptView> {
    Seq::new(scripts.len(), |i: int| scripts[i]@)
}

/// What a script element says of the page identifier: nothing where it
/// names a source or has no text, and else what its text says.
pub open spec fn page_id_said(script: ScriptView) -> PageId {
    match script.text {
        Some(text) => if script.external {
            PageId::Absent
        } else {
            page_id_of(encode_utf8(text))
        },
        None => PageId::Absent,
    }
}

/// The page identifier that the first script which mentions one assigns.
pub open spec fn first_page_id(scripts: Seq<ScriptView>) -> Option<u32>
    decreases scripts.len(),
{
    if scripts.len() == 0 {
        None
    } else {
        match page_id_said(scripts.first()) {
            PageId::Absent => first_page_id(scripts.drop_first()),
            PageId::Malformed => None,
            PageId::Found(id) => Some(id),
        }
    }
}

/// A pattern has at most one first occurrence in a text.
pub proof fn lemma_first_occurrence_is(text: Seq<u8>, pattern: Seq<u8>, at: int)
    requires
        is_first_occurrence(text, pattern, at),
    ensures
        first_occurrence(text, pattern) == Some(at),
{
    let chosen = choose|other: int| is_first_occurrence(text, pattern, other);
    assert(is_first_occurrence(text, pattern, chosen));
}

/// A pattern that stands nowhere in a text has no first occurrence.
pub proof fn lemma_no_occurrence(text: Seq<u8>, pattern: Seq<u8>)
    requires
        forall|b: int| 0 <= b <= text.len() ==> !occurs_at(text, pattern, b),
    ensures
        first_occurrence(text, pattern) is None,
{
    if exists|at: int| is_first_occurrence(text, pattern, at) {
        let at = choose|at: int| is_first_occurrence(text, pattern, at);
        assert(occurs_at(text, pattern, at));
    }
}

/// The piece before the end of the number has one length only.
pub proof fn lemma_piece_is(text: Seq<u8>, pattern: Seq<u8>, n: int)
    requires
        is_piece_length(text, pattern, n),
    ensures
        piece(text, pattern) == text.subrange(0, n),
{
    let chosen = choose|other: int| is_piece_length(text, pattern, other);
    assert(is_piece_length(text, pattern, chosen));
}

/// More digits do not write a smaller number.
pub proof fn lemma_decimal_value_grows(digits: Seq<u8>, n: int)
    requires
        all_digits(digits),
        0 <= n <= digits.len(),
    ensures
        decimal_value(digits.subrange(0, n)) <= decimal_value(digits),
    decreases digits.len() - n,
{
    if n == digits.len() {
        assert(digits.subrange(0, n) =~= digits);
    } else {
        lemma_decimal_value_grows(digits, n + 1);
        let longer = digits.subrange(0, n + 1);
        assert(longer.drop_last() =~= digits.subrange(0, n));
    }
}

/// Whether `pattern` stands in `text` at place `at`.
pub fn matches_at(text: &[u8], pattern: &[u8], at: usize) -> (found: bool)
    ensures
        found == occurs_at(text@, pattern@, at as int),
{
    if at > text.len() || pattern.len() > text.len() - at {
        return false;
    }
    let mut i: usize = 0;
    while i < pattern.len()
        invariant
            i <= pattern.len(),
            at + pattern.len() <= text.len(),
            forall|x: int| 0 <= x < i ==> text[at + x] == pattern[x],
        decreases pattern.len() - i,
    {
        if text[at + i] != pattern[i] {
            proof {
                let part = text@.subrange(at as int, at + pattern.len());
                assert(part[i as int] != pattern@[i as int]);
            }
            return false;
        }
        i += 1;
    }
    proof {
        assert(text@.subrange(at as int, at + pattern.len()) =~= pattern@);
    }
    true
}

/// Finds the first place of `text` at which `pattern` stands.
pub fn find(text: &[u8], pattern: &[u8]) -> (place: Option<usize>)
    ensures
        match place {
            Some(at) => first_occurrence(text@, pattern@) == Some(at as int),
            None => first_occurrence(text@, pattern@) is None,
        },
{
    let mut at: usize = 0;
    while at < text.len()
        invariant
            at <= text.len(),
            forall|b: int| 0 <= b < at ==> !occurs_at(text@, pattern@, b),
        decreases text.len() - at,
    {
        if matches_at(text, pattern, at) {
            proof {
                lemma_first_occurrence_is(text@, pattern@, at as int);
            }
            return Some(at);
        }
        at += 1;
    }
    // An empty pattern stands at the end of the text as well.
    if matches_at(text, pattern, at) {
        proof {
            lemma_first_occurrence_is(text@, pattern@, at as int);
        }
        Some(at)
    } else {
        proof {
            lemma_no_occurrence(text@, pattern@);
        }
        None
    }
}

/// Reads the number that the bytes of `text` from place `from` up to
/// place `to` write.
pub fn read_number(text: &[u8], from: usize, to: usize) -> (number: Option<u32>)
    requires
        from <= to <= text.len(),
    ensures
        number == number_of(text@.subrange(from as int, to as int)),
{
    let ghost whole = text@.subrange(from as int, to as int);
    let start: usize = if from < to && text[from] == 43 {
        from + 1
    } else {
        from
    };
    let ghost digits = text@.subrange(start as int, to as int);
    if start == to {
        return None;
    }
    let mut value: u64 = 0;
    let mut i: usize = start;
    while i < to
        invariant
            from <= start <= i <= to <= text.len(),
            start < to,
            whole == text@.subrange(from as int, to as int),
            digits == text@.subrange(start as int, to as int),
            unsigned_part(whole) == digits,
            all_digits(digits.subrange(0, i - start)),
            value == decimal_value(digits.subrange(0, i - start)),
            value <= u32::MAX,
        decreases to - i,
    {
        let byte: u8 = text[i];
        let ghost read = digits.subrange(0, i - start);
        let ghost next = digits.subrange(0, i + 1 - start);
        proof {
            assert(next.drop_last() =~= read);
            assert(next.last() == byte);
        }
        if byte < 48 || byte > 57 {
            return None;
        }
        value = value * 10 + (byte - 48) as u64;
        if value > u32::MAX as u64 {
            proof {
                if all_digits(digits) {
                    lemma_decimal_value_grows(digits, i + 1 - start);
                }
            }
            return None;
        }
        i += 1;
    }
    proof {
        assert(digits.subrange(0, to - start) =~= digits);
    }
    Some(value as u32)
}

/// Reads what the script `script` says of the page identifier, where
/// `marker` is the name of the identifier and `assignment` the text that
/// stands before its number.
pub fn page_id_with(script: &[u8], marker: &[u8], assignment: &[u8]) -> (id: PageId)
    ensures
        id == page_id_by(script@, marker@, assignment@),
{
    if find(script, marker).is_none() {
        return PageId::Absent;
    }
    let at: usize = match find(script, assignment) {
        Some(at) => at,
        None => {
            return PageId::Malformed;
        },
    };
    let length: usize = script.len();
    let from: usize = at + assignment.len();
    let ghost rest = script@.subrange(from as int, length as int);
    let mut to: usize = from;
    while to < length && script[to] != STATEMENT_END && !matches_at(script, assignment, to)
        invariant
            from <= to <= length,
            length == script.len(),
            rest == script@.subrange(from as int, length as int),
            forall|i: int| 0 <= i < to - from ==> !ends_at(rest, assignment@, i),
        decreases length - to,
    {
        proof {
            lemma_occurs_in_rest(script@, assignment@, from as int, to - from);
        }
        to += 1;
    }
    proof {
        if to < length {
            lemma_occurs_in_rest(script@, assignment@, from as int, to - from);
        }
        lemma_piece_is(rest, assignment@, to - from);
        assert(rest.subrange(0, to - from) =~= script@.subrange(from as int, to as int));
    }
    match read_number(script, from, to) {
        Some(id) => PageId::Found(id),
        None => PageId::Malformed,
    }
}

/// A pattern stands at a place of the rest of a text if and only if it
/// stands at that place of the text, counted from where the rest begins.
pub proof fn lemma_occurs_in_rest(text: Seq<u8>, pattern: Seq<u8>, from: int, i: int)
    requires
        0 <= from <= text.len(),
        0 <= i <= text.len() - from,
    ensures
        occurs_at(text.subrange(from, text.len() as int), pattern, i) == occurs_at(
            text,
            pattern,
            from + i,
        ),
{
    let rest = text.subrange(from, text.len() as int);
    if i + pattern.len() <= rest.len() {
        assert(rest.subrange(i, i + pattern.len()) =~= text.subrange(
            from + i,
            from + i + pattern.len(),
        ));
    }
}

/// Reads what the script `script` says of the page identifier.
pub fn page_id_in(script: &[u8]) -> (id: PageId)
    ensures
        id == page_id_of(script@),
{
    page_id_with(script, PAGE_ID_MARKER.as_bytes(), PAGE_ID_ASSIGNMENT.as_bytes())
}

/// Reads what a script element says of the page identifier.
pub fn page_id_from(script: &Script) -> (id: PageId)
    ensures
        id == page_id_said(script@),
{
    match &script.text {
        Some(text) => {
            if script.external {
                PageId::Absent
            } else {
                page_id_in(text.as_str().as_bytes())
            }
        },
        None => PageId::Absent,
    }
}

/// Reads the page identifier from the scripts of a page: the first script
/// that mentions the identifier decides.
pub fn extract_page_id(scripts: &Vec<Script>) -> (id: Option<u32>)
    ensures
        id == first_page_id(scripts_of(scripts@)),
{
    let ghost all = scripts_of(scripts@);
    proof {
        assert(all.subrange(0, all.len() as int) =~= all);
    }
    let mut i: usize = 0;
    while i < scripts.len()
        invariant
            i <= scripts.len(),
            all == scripts_of(scripts@),
            first_page_id(all) == first_page_id(all.subrange(i as int, all.len() as int)),
        decreases scripts.len() - i,
    {
        let ghost rest = all.subrange(i as int, all.len() as int);
        proof {
            assert(rest.first() == scripts[i as int]@);
            assert(rest.drop_first() =~= all.subrange(i + 1, all.len() as int));
        }
        match page_id_from(&scripts[i]) {
            PageId::Absent => {},
            PageId::Malformed => {
                return None;
            },
            PageId::Found(id) => {
                return Some(id);
            },
        }
        i += 1;
    }
    None
}

} // verus!
