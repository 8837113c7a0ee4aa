//! The topic multiplexer of the MQTT frontend: patterns for wildcard
//! topics, one entry per pattern, and the entries that a message goes to.

use crate::config::MqttConfig;
use crate::json::Document;
use crate::text::{chars_of, replace, replaced, string_of};
use vstd::prelude::*;

verus! {

/// How many messages an entry's channel holds before a slow subscriber
/// loses the oldest.
pub const CHANNEL_CAPACITY: usize = 200;

/// The seconds after which an idle connection is probed.
pub const KEEP_ALIVE_SECS: u64 = 10;

/// How many requests to the broker may wait.
pub const REQUEST_CAPACITY: usize = 10;

/// Whether a character has a meaning of its own in a regular expression.
pub open spec fn is_meta_character(c: char) -> bool {
    c == '\\' || c == '.' || c == '+' || c == '*' || c == '?' || c == '(' || c == ')' || c == '|'
        || c == '[' || c == ']' || c == '{' || c == '}' || c == '^' || c == '$' || c == '#' || c
        == '&' || c == '-' || c == '~'
}

/// `text` with a backslash in front of every character that has a meaning
/// of its own in a regular expression.
pub open spec fn regex_escaped(text: Seq<char>) -> Seq<char>
    decreases text.len(),
{
    if text.len() == 0 {
        text
    } else {
        let c = text.last();
        let rest = regex_escaped(text.drop_last());
        if is_meta_character(c) {
            rest.push('\\').push(c)
        } else {
            rest.push(c)
        }
    }
}

/// Whether `pattern` is a regular expression that can be compiled.
pub uninterp spec fn regex_compiles(pattern: Seq<char>) -> bool;

/// Whether the regular expression `pattern` matches somewhere in `text`.
pub uninterp spec fn regex_matches(pattern: Seq<char>, text: Seq<char>) -> bool;

/// Escapes a text for use as a literal in a regular expression.
///
/// Wraps `regex::escape`, which puts a backslash in front of each of the
/// meta characters `\.+*?()|[]{}^$#&-~` and leaves every other character
/// as it is.
#[verifier::external_body]
pub(crate) fn regex_escape(text: &str) -> (out: String)
    ensures
        out@ == regex_escaped(text@),
{
    regex::escape(text)
}

/// Whether a pattern can be compiled.
///
/// Wraps `regex::Regex::new`, which fails on a pattern with a syntax error
/// and on one that is too big; whether it does depends on the pattern
/// alone and is named [`regex_compiles`].
#[verifier::external_body]
pub(crate) fn pattern_compiles(pattern: &str) -> (ok: bool)
    ensures
        ok == regex_compiles(pattern@),
{
    regex::Regex::new(pattern).is_ok()
}

/// Whether a pattern can be compiled and matches in `text`.
///
/// Wraps `regex::Regex::new` and, on the expression that it gives,
/// `regex::Regex::is_match`, whose result depends on pattern and text
/// alone and is named [`regex_matches`].
#[verifier::external_body]
pub(crate) fn pattern_matches(pattern: &str, text: &str) -> (hit: bool)
    ensures
        hit == (regex_compiles(pattern@) && regex_matches(pattern@, text@)),
{
    match regex::Regex::new(pattern) {
        Ok(regex) => regex.is_match(text),
        Err(_) => false,
    }
}

/// Whether a message under `topic` goes to the subscribers of `pattern`.
pub open spec fn hits(pattern: Seq<char>, topic: Seq<char>) -> bool {
    regex_compiles(pattern) && regex_matches(pattern, topic)
}

/// The escaped topic with each single-level wildcard turned into "any run
/// of characters without a separator".
pub open spec fn single_levels(escaped: Seq<char>) -> Seq<char> {
    replaced(escaped, seq!['\\', '+'], seq!['[', '^', '/', ']', '*'])
}

/// The pattern body with a multi-level wildcard at its end turned into
/// "whatever remains".
pub open spec fn multi_level(body: Seq<char>) -> Seq<char> {
    if seq!['\\', '#'].is_suffix_of(body) {
        body.subrange(0, body.len() - 2) + seq!['.', '*']
    } else {
        body
    }
}

/// The pattern for a topic with wildcards: everything but the wildcards is
/// taken literally, `+` matches within one level, `#` at the end matches
/// the rest, and the pattern matches whole topics only.
pub open spec fn topic_pattern(topic: Seq<char>) -> Seq<char> {
    seq!['^'] + multi_level(single_levels(regex_escaped(topic))) + seq!['$']
}

/// Compiles a topic with wildcards into its pattern.
pub fn compile_topic(topic: &str) -> (pattern: String)
    ensures
        pattern@ == topic_pattern(topic@),
{
    let escaped = regex_escape(topic);
    proof {
        reveal_strlit("\\+");
        reveal_strlit("[^/]*");
        reveal_strlit("^");
        reveal_strlit(".*");
        reveal_strlit("$");
    }
    assert("\\+"@ =~= seq!['\\', '+']);
    assert("[^/]*"@ =~= seq!['[', '^', '/', ']', '*']);
    let body = replace(escaped.as_str(), "\\+", "[^/]*");
    let chars = chars_of(body.as_str());
    let n = chars.len();
    let mut pattern = String::new();
    pattern.append("^");
    if n >= 2 && chars[n - 2] == '\\' && chars[n - 1] == '#' {
        assert(seq!['\\', '#'] =~= body@.subrange(body@.len() - 2, body@.len() as int));
        let head = string_of(&chars, 0, n - 2);
        pattern.append(head.as_str());
        pattern.append(".*");
    } else {
        assert(!seq!['\\', '#'].is_suffix_of(body@)) by {
            if seq!['\\', '#'].is_suffix_of(body@) {
                let tail = body@.subrange(body@.len() - 2, body@.len() as int);
                assert(tail[0] == '\\' && tail[1] == '#');
            }
        }
        pattern.append(body.as_str());
    }
    pattern.append("$");
    assert(pattern@ =~= topic_pattern(topic@));
    pattern
}

/// What a message carried.
pub enum Payload {
    /// The payload was a JSON document.
    Json(Document),
    /// The payload was no JSON document: its bytes as text.
    Text(String),
}

/// The document for a message: an object whose one member has the topic
/// for its name and the payload for its value, a payload that was no JSON
/// document as a string.
pub fn message_document(topic: &str, payload: Payload) -> (document: Document)
    ensures
        document matches Document::Object(members) && members@.len() == 1 && members@[0].0@
            == topic@ && match payload {
            Payload::Json(value) => members@[0].1 == value,
            Payload::Text(text) => members@[0].1 == Document::String(text),
        },
{
    let value = match payload {
        Payload::Json(value) => value,
        Payload::Text(text) => Document::String(text),
    };
    let mut members: Vec<(String, Document)> = Vec::new();
    members.push((topic.to_string(), value));
    Document::Object(members)
}

/// What a subscriber is handed: the entry whose channel it listens on.
pub struct Subscription {
    /// The position of the entry in the table.
    pub entry: usize,
    /// Whether the entry is new: its channel has to be opened, and the
    /// topic has to be subscribed to at the broker.
    pub created: bool,
    /// The pattern of the entry.
    pub pattern: String,
}

/// Why a topic was not subscribed to.
#[derive(Debug, Clone, Copy, PartialEq, Eq, Structural)]
pub enum SubscribeError {
    /// The pattern of the topic cannot be compiled.
    InvalidPattern,
}

/// The entries among the first `n` to which a message under `topic` goes,
/// in the table's order.
pub open spec fn matching_entries(patterns: Seq<Seq<char>>, topic: Seq<char>, n: nat) -> Seq<usize>
    decreases n,
{
    if n == 0 || n > patterns.len() {
        Seq::empty()
    } else {
        let before = matching_entries(patterns, topic, (n - 1) as nat);
        if hits(patterns[n - 1], topic) {
            before.push((n - 1) as usize)
        } else {
            before
        }
    }
}

/// One MQTT frontend: the table of patterns that subscribers listen on.
/// Entry `i` of the table stands for one channel; subscribers of the same
/// pattern share it. Entries are never removed, and a table that starts
/// empty never holds a pattern twice.
pub struct MqttFrontend {
    config: MqttConfig,
    receivers: Vec<String>,
}

impl MqttFrontend {
    /// The patterns of the entries, in the table's order.
    pub closed spec fn patterns(&self) -> Seq<Seq<char>> {
        self.receivers@.map_values(|p: String| p@)
    }

    /// The configuration that the frontend was made from.
    pub closed spec fn settings(&self) -> MqttConfig {
        self.config
    }

    /// Whether no pattern stands twice in the table.
    pub open spec fn well_formed(&self) -> bool {
        forall|i: int, j: int|
            0 <= i < j < self.patterns().len() ==> self.patterns()[i] != self.patterns()[j]
    }

    /// What one call of `stream` does. A topic whose pattern stands in the
    /// table is attached to that entry. Any other topic gets a new entry at
    /// the end, unless its pattern cannot be compiled: then the table stays
    /// as it is.
    pub open spec fn subscribed(
        before: Self,
        topic: Seq<char>,
        after: Self,
        result: Result<Subscription, SubscribeError>,
    ) -> bool {
        Self::attached(
            before,
            topic_pattern(topic),
            regex_compiles(topic_pattern(topic)),
            after,
            result,
        )
    }

    /// What one call of `attach` does.
    pub open spec fn attached(
        before: Self,
        pattern: Seq<char>,
        compiles: bool,
        after: Self,
        result: Result<Subscription, SubscribeError>,
    ) -> bool {
        &&& after.settings() == before.settings()
        &&& if before.patterns().contains(pattern) {
            &&& after.patterns() == before.patterns()
            &&& result matches Ok(subscription)
            &&& !subscription.created
            &&& subscription.pattern@ == pattern
            &&& subscription.entry < before.patterns().len()
            &&& before.patterns()[subscription.entry as int] == pattern
            &&& forall|j: int| 0 <= j < subscription.entry ==> before.patterns()[j] != pattern
        } else if compiles {
            &&& after.patterns() == before.patterns().push(pattern)
            &&& result matches Ok(subscription)
            &&& subscription.created
            &&& subscription.pattern@ == pattern
            &&& subscription.entry == before.patterns().len()
        } else {
            &&& after.patterns() == before.patterns()
            &&& result == Err::<Subscription, SubscribeError>(SubscribeError::InvalidPattern)
        }
    }

    /// A frontend without subscribers.
    pub fn new(config: &MqttConfig) -> (frontend: MqttFrontend)
        ensures
            frontend.patterns() == Seq::<Seq<char>>::empty(),
            frontend.settings() == *config,
            frontend.well_formed(),
    {
        let frontend = MqttFrontend { config: clone_config(config), receivers: Vec::new() };
        assert(frontend.patterns() =~= Seq::empty());
        frontend
    }

    /// The configuration that the frontend was made from.
    pub fn config(&self) -> (config: &MqttConfig)
        ensures
            *config == self.settings(),
    {
        &self.config
    }

    /// The number of entries, which is the number of channels.
    pub fn len(&self) -> (n: usize)
        ensures
            n == self.patterns().len(),
    {
        self.receivers.len()
    }

    /// The position of the entry with this pattern.
    pub fn position(&self, pattern: &String) -> (found: Option<usize>)
        ensures
            match found {
                Some(i) => {
                    &&& i < self.patterns().len()
                    &&& self.patterns()[i as int] == pattern@
                    &&& forall|j: int| 0 <= j < i ==> self.patterns()[j] != pattern@
                },
                None => !self.patterns().contains(pattern@),
            },
    {
        let mut i: usize = 0;
        while i < self.receivers.len()
            invariant
                i <= self.receivers@.len(),
                forall|j: int| 0 <= j < i ==> self.patterns()[j] != pattern@,
            decreases self.receivers@.len() - i,
        {
            if self.receivers[i] == *pattern {
                assert(self.patterns()[i as int] == pattern@);
                return Some(i);
            }
            i += 1;
        }
        None
    }

    /// Attaches a subscriber to the entry of `pattern`, where `compiles`
    /// says whether the pattern can be compiled. A pattern that stands in
    /// the table is attached to, whatever `compiles` says. Any other
    /// pattern gets a new entry at the end if it compiles, and is refused
    /// if it does not.
    pub fn attach(&mut self, pattern: String, compiles: bool) -> (result: Result<
        Subscription,
        SubscribeError,
    >)
        ensures
            Self::attached(*old(self), pattern@, compiles, *final(self), result),
            old(self).well_formed() ==> final(self).well_formed(),
    {
        match self.position(&pattern) {
            Some(entry) => {
                assert(self.patterns().contains(pattern@));
                Ok(Subscription { entry, created: false, pattern })
            },
            None => {
                if !compiles {
                    return Err(SubscribeError::InvalidPattern);
                }
                let ghost patterns = self.patterns();
                let entry = self.receivers.len();
                self.receivers.push(clone_text(&pattern));
                assert(self.patterns() =~= patterns.push(pattern@));
                Ok(Subscription { entry, created: true, pattern })
            },
        }
    }

    /// Registers a subscriber for a topic with wildcards and says which
    /// entry it listens on. Subscribers whose topics compile to the same
    /// pattern share one entry.
    pub fn stream(&mut self, topic: &str) -> (result: Result<Subscription, SubscribeError>)
        ensures
            Self::subscribed(*old(self), topic@, *final(self), result),
            old(self).well_formed() ==> final(self).well_formed(),
    {
        let pattern = compile_topic(topic);
        let compiles = match self.position(&pattern) {
            Some(_) => {
                assert(self.patterns().contains(pattern@));
                true
            },
            None => pattern_compiles(pattern.as_str()),
        };
        self.attach(pattern, compiles)
    }

    /// The entries to which a message under `topic` goes: those whose
    /// pattern matches the whole topic, in the table's order.
    pub fn deliver(&self, topic: &str) -> (entries: Vec<usize>)
        ensures
            entries@ == matching_entries(self.patterns(), topic@, self.patterns().len()),
    {
        let mut hit: Vec<bool> = Vec::new();
        let mut i: usize = 0;
        while i < self.receivers.len()
            invariant
                i <= self.receivers@.len(),
                hit@.len() == i,
                forall|k: int|
                    0 <= k < i ==> #[trigger] hit@[k] == hits(self.patterns()[k], topic@),
            decreases self.receivers@.len() - i,
        {
            assert(self.patterns()[i as int] == self.receivers@[i as int]@);
            hit.push(pattern_matches(self.receivers[i].as_str(), topic));
            i += 1;
        }
        let entries = entries_hit(&hit);
        proof {
            lemma_marked_are_matching(hit@, self.patterns(), topic@, hit@.len());
        }
        entries
    }
}

/// The positions among the first `n` that are marked, in increasing
/// order.
pub open spec fn marked(hit: Seq<bool>, n: nat) -> Seq<usize>
    decreases n,
{
    if n == 0 || n > hit.len() {
        Seq::empty()
    } else if hit[n - 1] {
        marked(hit, (n - 1) as nat).push((n - 1) as usize)
    } else {
        marked(hit, (n - 1) as nat)
    }
}

/// The entries that a message goes to, from what each entry's pattern
/// says of the message's topic: the positions that are marked.
pub fn entries_hit(hit: &Vec<bool>) -> (entries: Vec<usize>)
    ensures
        entries@ == marked(hit@, hit@.len()),
{
    let mut entries: Vec<usize> = Vec::new();
    let mut i: usize = 0;
    while i < hit.len()
        invariant
            i <= hit@.len(),
            entries@ == marked(hit@, i as nat),
        decreases hit@.len() - i,
    {
        if hit[i] {
            entries.push(i);
        }
        i += 1;
    }
    entries
}

/// Where each entry is marked as its pattern says, the marked positions
/// are the entries that the message goes to.
proof fn lemma_marked_are_matching(
    hit: Seq<bool>,
    patterns: Seq<Seq<char>>,
    topic: Seq<char>,
    n: nat,
)
    requires
        n <= hit.len() == patterns.len(),
        forall|k: int| 0 <= k < hit.len() ==> #[trigger] hit[k] == hits(patterns[k], topic),
    ensures
        marked(hit, n) == matching_entries(patterns, topic, n),
    decreases n,
{
    if n > 0 {
        lemma_marked_are_matching(hit, patterns, topic, (n - 1) as nat);
    }
}

/// A copy of a text.
fn clone_text(text: &String) -> (copy: String)
    ensures
        copy@ == text@,
{
    text.clone()
}

/// A copy of a configuration.
fn clone_config(config: &MqttConfig) -> (copy: MqttConfig)
    ensures
        copy == *config,
{
    MqttConfig {
        host: config.host.clone(),
        port: config.port,
        auth: match &config.auth {
            Some(auth) => Some(
                crate::config::MqttAuth {
                    username: auth.username.clone(),
                    password: auth.password.clone(),
                },
            ),
            None => None,
        },
        client_id: config.client_id.clone(),
    }
}

/// The entries that a message goes to come in increasing order, and they
/// are exactly the entries whose pattern it hits.
pub proof fn lemma_matching_entries(patterns: Seq<Seq<char>>, topic: Seq<char>, n: nat)
    requires
        n <= patterns.len(),
        n <= usize::MAX,
    ensures
        forall|k: int|
            0 <= k < matching_entries(patterns, topic, n).len() ==> {
                &&& (#[trigger] matching_entries(patterns, topic, n)[k]) < n
                &&& hits(patterns[matching_entries(patterns, topic, n)[k] as int], topic)
            },
        forall|k: int, l: int|
            0 <= k < l < matching_entries(patterns, topic, n).len() ==> matching_entries(
                patterns,
                topic,
                n,
            )[k] < matching_entries(patterns, topic, n)[l],
        forall|i: int|
            0 <= i < n && hits(#[trigger] patterns[i], topic) ==> matching_entries(
                patterns,
                topic,
                n,
            ).contains(i as usize),
    decreases n,
{
    if n > 0 {
        let m = (n - 1) as nat;
        lemma_matching_entries(patterns, topic, m);
        let before = matching_entries(patterns, topic, m);
        let now = matching_entries(patterns, topic, n);
        assert forall|i: int| 0 <= i < n && hits(#[trigger] patterns[i], topic) implies now.contains(
            i as usize,
        ) by {
            if i < m {
                let k = choose|k: int| 0 <= k < before.len() && before[k] == i as usize;
                assert(now[k] == i as usize);
            } else {
                assert(now[now.len() - 1] == i as usize);
            }
        }
    }
}

/// Two subscribers of the same topic share one entry: the second call
/// attaches to the entry of the first, the table grows by one entry at
/// most, no other entry has the topic's pattern, and every message goes to
/// the shared entry once if the pattern hits its topic and not at all if it
/// does not.
pub proof fn lemma_same_topic_shares_entry(
    before: MqttFrontend,
    topic: Seq<char>,
    between: MqttFrontend,
    first: Result<Subscription, SubscribeError>,
    after: MqttFrontend,
    second: Result<Subscription, SubscribeError>,
)
    requires
        before.well_formed(),
        before.patterns().len() < usize::MAX,
        MqttFrontend::subscribed(before, topic, between, first),
        MqttFrontend::subscribed(between, topic, after, second),
    ensures
        first is Ok <==> second is Ok,
        first matches Ok(a) ==> {
            &&& second matches Ok(b)
            &&& b.entry == a.entry
            &&& !b.created
            &&& after.patterns() == between.patterns()
            &&& after.patterns().len() == before.patterns().len() + if a.created {
                1int
            } else {
                0int
            }
            &&& after.well_formed()
            &&& forall|i: int|
                0 <= i < after.patterns().len() && after.patterns()[i] == topic_pattern(topic)
                    ==> i == a.entry
            &&& forall|message: Seq<char>|
                #![trigger matching_entries(after.patterns(), message, after.patterns().len())]
                {
                    let entries = matching_entries(
                        after.patterns(),
                        message,
                        after.patterns().len(),
                    );
                    &&& entries.no_duplicates()
                    &&& entries.contains(a.entry) <==> hits(topic_pattern(topic), message)
                }
        },
{
    let pattern = topic_pattern(topic);
    match first {
        Ok(a) => {
            assert(between.patterns()[a.entry as int] == pattern);
            assert(between.patterns().contains(pattern));
            assert(between.well_formed()) by {
                if a.created {
                    assert forall|i: int, j: int|
                        0 <= i < j < between.patterns().len() implies between.patterns()[i]
                        != between.patterns()[j] by {
                        if j == before.patterns().len() {
                            assert(before.patterns()[i] == between.patterns()[i]);
                            assert(before.patterns().contains(between.patterns()[i]));
                        } else {
                            assert(before.patterns()[i] != before.patterns()[j]);
                        }
                    }
                }
            }
            let b = second->Ok_0;
            assert(b.entry == a.entry) by {
                if b.entry < a.entry {
                    assert(between.patterns()[b.entry as int] != between.patterns()[a.entry as int]);
                } else if a.entry < b.entry {
                    assert(between.patterns()[a.entry as int] != pattern);
                }
            }
            assert forall|i: int|
                0 <= i < after.patterns().len() && after.patterns()[i] == pattern implies i
                == a.entry by {
                if i < a.entry {
                    assert(after.patterns()[i] != after.patterns()[a.entry as int]);
                } else if a.entry < i {
                    assert(after.patterns()[a.entry as int] != after.patterns()[i]);
                }
            }
            assert forall|message: Seq<char>|
                #![trigger matching_entries(after.patterns(), message, after.patterns().len())]
                {
                    let entries = matching_entries(
                        after.patterns(),
                        message,
                        after.patterns().len(),
                    );
                    &&& entries.no_duplicates()
                    &&& entries.contains(a.entry) <==> hits(pattern, message)
                } by {
                let entries = matching_entries(after.patterns(), message, after.patterns().len());
                lemma_matching_entries(after.patterns(), message, after.patterns().len());
                assert(entries.no_duplicates()) by {
                    assert forall|k: int, l: int|
                        0 <= k < entries.len() && 0 <= l < entries.len() && k != l implies entries[k]
                        != entries[l] by {
                        if k < l {
                            assert(entries[k] < entries[l]);
                        } else {
                            assert(entries[l] < entries[k]);
                        }
                    }
                }
                if entries.contains(a.entry) {
                    let k = choose|k: int| 0 <= k < entries.len() && entries[k] == a.entry;
                    assert(hits(after.patterns()[entries[k] as int], message));
                }
                if hits(pattern, message) {
                    assert(hits(after.patterns()[a.entry as int], message));
                }
            }
        },
        Err(_) => {
            assert(!before.patterns().contains(pattern));
            assert(between.patterns() == before.patterns());
        },
    }
}

} // verus!
