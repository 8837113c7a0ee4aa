//! JSON-like documents and their canonical text.

use vstd::prelude::*;

verus! {

/// One unit of input data: a tree of JSON values.
///
/// A number is held as its decimal text; an object keeps its members in the
/// order in which they are visited.
#[derive(Debug, PartialEq, Eq)]
pub enum Document {
    Null,
    Bool(bool),
    Number(String),
    String(String),
    Array(Vec<Document>),
    Object(Vec<(String, Document)>),
}

/// The JSON string literal for `text`: the text between double quotes, with
/// the characters that JSON does not allow in a literal escaped.
pub uninterp spec fn json_quoted(text: Seq<char>) -> Seq<char>;

/// The JSON string literal for `text`.
///
/// Wraps the `Display` implementation of `serde_json::Value` on a string
/// value; its result is a function of the text alone and is named
/// [`json_quoted`].
#[verifier::external_body]
pub(crate) fn quote_json(text: &str) -> (out: String)
    ensures
        out@ == json_quoted(text@),
{
    serde_json::Value::from(text).to_string()
}

/// The first `n` of `texts`, separated by commas.
pub open spec fn joined(texts: Seq<Seq<char>>, n: nat) -> Seq<char>
    decreases n,
{
    if n == 0 || n > texts.len() {
        Seq::empty()
    } else if n == 1 {
        texts[0]
    } else {
        joined(texts, (n - 1) as nat) + seq![','] + texts[n - 1]
    }
}

/// A member of an object as text: the key's literal, a colon, the value's
/// text.
pub open spec fn member_json(quoted_key: Seq<char>, value: Seq<char>) -> Seq<char> {
    quoted_key + seq![':'] + value
}

/// The texts of the first `n` of `items`, separated by commas.
pub open spec fn array_text(items: Seq<Document>, n: nat) -> Seq<char>
    decreases items, n,
{
    if n == 0 || n > items.len() {
        Seq::empty()
    } else if n == 1 {
        json_text(items[0])
    } else {
        array_text(items, (n - 1) as nat) + seq![','] + json_text(items[n - 1])
    }
}

/// The first `n` of `members` as `key:value` pairs, separated by commas.
pub open spec fn object_text(members: Seq<(String, Document)>, n: nat) -> Seq<char>
    decreases members, n,
{
    if n == 0 || n > members.len() {
        Seq::empty()
    } else if n == 1 {
        member_json(json_quoted(members[0].0@), json_text(members[0].1))
    } else {
        object_text(members, (n - 1) as nat) + seq![','] + member_json(
            json_quoted(members[n - 1].0@),
            json_text(members[n - 1].1),
        )
    }
}

/// A list of texts as characters.
pub open spec fn text_views(texts: Seq<String>) -> Seq<Seq<char>> {
    texts.map_values(|t: String| t@)
}

/// The texts of items, joined, are the text of the items.
proof fn lemma_array_text(items: Seq<Document>, texts: Seq<Seq<char>>, n: nat)
    requires
        n <= items.len() == texts.len(),
        forall|k: int| 0 <= k < items.len() ==> #[trigger] texts[k] == json_text(items[k]),
    ensures
        joined(texts, n) == array_text(items, n),
    decreases n,
{
    if n > 1 {
        lemma_array_text(items, texts, (n - 1) as nat);
    }
}

/// The texts of members, joined, are the text of the members.
proof fn lemma_object_text(members: Seq<(String, Document)>, texts: Seq<Seq<char>>, n: nat)
    requires
        n <= members.len() == texts.len(),
        forall|k: int|
            0 <= k < members.len() ==> #[trigger] texts[k] == member_json(
                json_quoted(members[k].0@),
                json_text(members[k].1),
            ),
    ensures
        joined(texts, n) == object_text(members, n),
    decreases n,
{
    if n > 1 {
        lemma_object_text(members, texts, (n - 1) as nat);
    }
}

/// One member of an object as text, from the literal of its key and the
/// text of its value.
pub fn member_text(quoted_key: &str, value: &str) -> (out: String)
    ensures
        out@ == member_json(quoted_key@, value@),
{
    let mut out = String::new();
    out.append(quoted_key);
    crate::text::push_char(&mut out, ':');
    out.append(value);
    assert(out@ =~= member_json(quoted_key@, value@));
    out
}

/// A list as text: the texts separated by commas, between `open` and
/// `close`.
pub fn framed_list(open: char, texts: &Vec<String>, close: char) -> (out: String)
    ensures
        out@ == seq![open] + joined(text_views(texts@), texts@.len()) + seq![close],
{
    let mut out = String::new();
    crate::text::push_char(&mut out, open);
    let mut i: usize = 0;
    while i < texts.len()
        invariant
            i <= texts@.len(),
            out@ == seq![open] + joined(text_views(texts@), i as nat),
        decreases texts@.len() - i,
    {
        if i > 0 {
            crate::text::push_char(&mut out, ',');
        }
        assert(text_views(texts@)[i as int] == texts@[i as int]@);
        out.append(texts[i].as_str());
        i += 1;
        assert(out@ =~= seq![open] + joined(text_views(texts@), i as nat));
    }
    crate::text::push_char(&mut out, close);
    out
}

/// The compact JSON text of a document.
pub open spec fn json_text(d: Document) -> Seq<char>
    decreases d,
{
    match d {
        Document::Null => seq!['n', 'u', 'l', 'l'],
        Document::Bool(true) => seq!['t', 'r', 'u', 'e'],
        Document::Bool(false) => seq!['f', 'a', 'l', 's', 'e'],
        Document::Number(digits) => digits@,
        Document::String(s) => json_quoted(s@),
        Document::Array(items) => seq!['['] + array_text(items@, items@.len()) + seq![']'],
        Document::Object(members) => seq!['{'] + object_text(members@, members@.len()) + seq!['}'],
    }
}

impl Document {
    /// Whether the document has no children: a scalar, or an empty array or
    /// object.
    pub open spec fn is_leaf(self) -> bool {
        match self {
            Document::Array(items) => items@.len() == 0,
            Document::Object(members) => members@.len() == 0,
            _ => true,
        }
    }

    /// The text that a column takes from this node: the content of a
    /// string, the JSON text of anything else.
    pub open spec fn column_text(self) -> Seq<char> {
        match self {
            Document::String(s) => s@,
            other => json_text(other),
        }
    }

    /// Whether this is an array.
    pub fn is_array(&self) -> (b: bool)
        ensures
            b == (*self is Array),
    {
        match self {
            Document::Array(_) => true,
            _ => false,
        }
    }

    /// Whether this is an object.
    pub fn is_object(&self) -> (b: bool)
        ensures
            b == (*self is Object),
    {
        match self {
            Document::Object(_) => true,
            _ => false,
        }
    }

    /// Whether this node has no children.
    pub fn has_no_children(&self) -> (b: bool)
        ensures
            b == self.is_leaf(),
    {
        match self {
            Document::Array(items) => items.len() == 0,
            Document::Object(members) => members.len() == 0,
            _ => true,
        }
    }

    /// Whether every object of the document has each key once.
    pub fn has_unique_keys(&self) -> (unique: bool)
        ensures
            unique == unique_keys(*self),
        decreases *self,
    {
        match self {
            Document::Array(items) => {
                let mut i: usize = 0;
                while i < items.len()
                    invariant
                        i <= items@.len(),
                        *self is Array,
                        self->Array_0 == *items,
                        forall|k: int| 0 <= k < i ==> unique_keys(#[trigger] items@[k]),
                    decreases items@.len() - i,
                {
                    assert(decreases_to!(*items => items[i as int]));
                    if !items[i].has_unique_keys() {
                        return false;
                    }
                    i += 1;
                }
                true
            },
            Document::Object(members) => {
                let mut i: usize = 0;
                while i < members.len()
                    invariant
                        i <= members@.len(),
                        *self is Object,
                        self->Object_0 == *members,
                        forall|k: int| 0 <= k < i ==> unique_keys((#[trigger] members@[k]).1),
                        forall|a: int, b: int|
                            0 <= a < b < i ==> (#[trigger] members@[a]).0@ != (
                            #[trigger] members@[b]).0@,
                    decreases members@.len() - i,
                {
                    let mut j: usize = 0;
                    while j < i
                        invariant
                            j <= i < members@.len(),
                            *self is Object,
                            self->Object_0 == *members,
                            forall|a: int| 0 <= a < j ==> (#[trigger] members@[a]).0@ != members@[i as int].0@,
                        decreases i - j,
                    {
                        if members[j].0 == members[i].0 {
                            assert(members@[j as int].0@ == members@[i as int].0@);
                            return false;
                        }
                        j += 1;
                    }
                    assert(decreases_to!(*members => members[i as int]));
                    if !members[i].1.has_unique_keys() {
                        return false;
                    }
                    i += 1;
                }
                true
            },
            _ => true,
        }
    }

    /// The compact JSON text of the document.
    pub fn to_json(&self) -> (out: String)
        ensures
            out@ == json_text(*self),
        decreases *self,
    {
        match self {
            Document::Null => {
                proof {
                    reveal_strlit("null");
                }
                let out = "null".to_string();
                assert(out@ =~= json_text(*self));
                out
            },
            Document::Bool(true) => {
                proof {
                    reveal_strlit("true");
                }
                let out = "true".to_string();
                assert(out@ =~= json_text(*self));
                out
            },
            Document::Bool(false) => {
                proof {
                    reveal_strlit("false");
                }
                let out = "false".to_string();
                assert(out@ =~= json_text(*self));
                out
            },
            Document::Number(digits) => digits.clone(),
            Document::String(s) => quote_json(s.as_str()),
            Document::Array(items) => {
                let mut texts: Vec<String> = Vec::new();
                let mut i: usize = 0;
                while i < items.len()
                    invariant
                        i <= items@.len(),
                        *self is Array,
                        self->Array_0 == *items,
                        texts@.len() == i,
                        forall|k: int| 0 <= k < i ==> (#[trigger] texts@[k])@ == json_text(items@[k]),
                    decreases items@.len() - i,
                {
                    assert(decreases_to!(*items => items[i as int]));
                    texts.push(items[i].to_json());
                    i += 1;
                }
                proof {
                    lemma_array_text(items@, text_views(texts@), items@.len());
                }
                framed_list('[', &texts, ']')
            },
            Document::Object(members) => {
                let mut texts: Vec<String> = Vec::new();
                let mut i: usize = 0;
                while i < members.len()
                    invariant
                        i <= members@.len(),
                        *self is Object,
                        self->Object_0 == *members,
                        texts@.len() == i,
                        forall|k: int|
                            0 <= k < i ==> (#[trigger] texts@[k])@ == member_json(
                                json_quoted(members@[k].0@),
                                json_text(members@[k].1),
                            ),
                    decreases members@.len() - i,
                {
                    assert(decreases_to!(*members => members[i as int]));
                    let key = quote_json(members[i].0.as_str());
                    let value = members[i].1.to_json();
                    texts.push(member_text(key.as_str(), value.as_str()));
                    i += 1;
                }
                proof {
                    lemma_object_text(members@, text_views(texts@), members@.len());
                }
                framed_list('{', &texts, '}')
            },
        }
    }

    /// The text that a column takes from this node.
    pub fn to_column_text(&self) -> (out: String)
        ensures
            out@ == self.column_text(),
    {
        match self {
            Document::String(s) => s.clone(),
            _ => self.to_json(),
        }
    }
}

/// Whether every object of the document has each key once.
pub open spec fn unique_keys(d: Document) -> bool
    decreases d,
{
    match d {
        Document::Array(items) => forall|i: int|
            0 <= i < items@.len() ==> unique_keys(#[trigger] items@[i]),
        Document::Object(members) => {
            &&& forall|i: int, j: int|
                0 <= i < j < members@.len() ==> (#[trigger] members@[i]).0@ != (
                #[trigger] members@[j]).0@
            &&& forall|i: int| 0 <= i < members@.len() ==> unique_keys((#[trigger] members@[i]).1)
        },
        _ => true,
    }
}

/// Whether two documents hold the same values in the same places.
pub open spec fn same_document(a: Document, b: Document) -> bool
    decreases a,
{
    match (a, b) {
        (Document::Null, Document::Null) => true,
        (Document::Bool(x), Document::Bool(y)) => x == y,
        (Document::Number(x), Document::Number(y)) => x@ == y@,
        (Document::String(x), Document::String(y)) => x@ == y@,
        (Document::Array(x), Document::Array(y)) => {
            &&& x@.len() == y@.len()
            &&& forall|i: int| 0 <= i < x@.len() ==> same_document(x@[i], #[trigger] y@[i])
        },
        (Document::Object(x), Document::Object(y)) => {
            &&& x@.len() == y@.len()
            &&& forall|i: int|
                0 <= i < x@.len() ==> x@[i].0@ == (#[trigger] y@[i]).0@ && same_document(
                    x@[i].1,
                    y@[i].1,
                )
        },
        _ => false,
    }
}

impl Clone for Document {
    fn clone(&self) -> (copy: Document)
        ensures
            same_document(*self, copy),
        decreases *self,
    {
        match self {
            Document::Null => Document::Null,
            Document::Bool(b) => Document::Bool(*b),
            Document::Number(digits) => Document::Number(digits.clone()),
            Document::String(s) => Document::String(s.clone()),
            Document::Array(items) => {
                let mut copies: Vec<Document> = Vec::new();
                let mut i: usize = 0;
                while i < items.len()
                    invariant
                        i <= items@.len(),
                        *self is Array,
                        self->Array_0 == *items,
                        copies@.len() == i,
                        forall|k: int| 0 <= k < i ==> same_document(items@[k], #[trigger] copies@[k]),
                    decreases items@.len() - i,
                {
                    assert(decreases_to!(*items => items[i as int]));
                    copies.push(items[i].clone());
                    i += 1;
                }
                Document::Array(copies)
            },
            Document::Object(members) => {
                let mut copies: Vec<(String, Document)> = Vec::new();
                let mut i: usize = 0;
                while i < members.len()
                    invariant
                        i <= members@.len(),
                        *self is Object,
                        self->Object_0 == *members,
                        copies@.len() == i,
                        forall|k: int|
                            0 <= k < i ==> members@[k].0@ == (#[trigger] copies@[k]).0@
                                && same_document(members@[k].1, copies@[k].1),
                    decreases members@.len() - i,
                {
                    assert(decreases_to!(*members => members[i as int]));
                    copies.push((members[i].0.clone(), members[i].1.clone()));
                    i += 1;
                }
                Document::Object(copies)
            },
        }
    }
}

} // verus!
