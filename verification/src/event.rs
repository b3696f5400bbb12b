//! Webhook events and their decoding from a payload.
//!
//! A payload is a JSON object. Its shape selects the event: an object with a
//! `before` or a `commits` entry is a push, any other object with an `action`
//! entry is a generic event, and every other object is unrecognized. Entries
//! that the selected event does not name are ignored.
use vstd::prelude::*;
use crate::json::{lemma_array_tree, lemma_object_tree, lookup, parse, parsed, Json, Tree};

verus! {

/// One commit of a push.
#[derive(Debug, PartialEq, Eq)]
pub struct Commit {
    pub id: String,
    pub message: String,
    pub distinct: bool,
}

/// The mathematical value of a [`Commit`].
pub struct CommitView {
    pub id: Seq<char>,
    pub message: Seq<char>,
    pub distinct: bool,
}

impl View for Commit {
    type V = CommitView;

    open spec fn view(&self) -> CommitView {
        CommitView { id: self.id@, message: self.message@, distinct: self.distinct }
    }
}

/// A decoded event. Exactly one variant is active.
#[derive(Debug, PartialEq, Eq)]
pub enum Event {
    Push { before: String, commits: Vec<Commit> },
    Generic { action: String },
    Unrecognized,
}

/// The mathematical value of an [`Event`].
pub enum EventView {
    Push { before: Seq<char>, commits: Seq<CommitView> },
    Generic { action: Seq<char> },
    Unrecognized,
}

impl View for Event {
    type V = EventView;

    open spec fn view(&self) -> EventView {
        match self {
            Event::Push { before, commits } => EventView::Push {
                before: before@,
                commits: commits@.map_values(|c: Commit| c@),
            },
            Event::Generic { action } => EventView::Generic { action: action@ },
            Event::Unrecognized => EventView::Unrecognized,
        }
    }
}

/// Why a payload could not be decoded.
#[derive(Debug, PartialEq, Eq)]
pub enum DecodeError {
    /// The selected event requires an entry of this name and the object has
    /// none.
    MissingField(String),
    /// The payload is not a JSON document, is not an object, or holds a
    /// required entry whose value is of the wrong kind.
    Malformed,
}

/// The mathematical value of a [`DecodeError`].
pub enum Failure {
    MissingField(Seq<char>),
    Malformed,
}

impl View for DecodeError {
    type V = Failure;

    open spec fn view(&self) -> Failure {
        match self {
            DecodeError::MissingField(name) => Failure::MissingField(name@),
            DecodeError::Malformed => Failure::Malformed,
        }
    }
}

/// The value of a result of decoding.
pub open spec fn outcome(r: Result<Event, DecodeError>) -> Result<EventView, Failure> {
    match r {
        Ok(event) => Ok(event@),
        Err(error) => Err(error@),
    }
}

/// The required text entry `name` of an object.
pub open spec fn text_of(entries: Seq<(Seq<char>, Tree)>, name: Seq<char>) -> Result<
    Seq<char>,
    Failure,
> {
    match lookup(entries, name) {
        None => Err(Failure::MissingField(name)),
        Some(Tree::Text(s)) => Ok(s),
        Some(_) => Err(Failure::Malformed),
    }
}

/// The required boolean entry `name` of an object.
pub open spec fn flag_of(entries: Seq<(Seq<char>, Tree)>, name: Seq<char>) -> Result<
    bool,
    Failure,
> {
    match lookup(entries, name) {
        None => Err(Failure::MissingField(name)),
        Some(Tree::Bool(b)) => Ok(b),
        Some(_) => Err(Failure::Malformed),
    }
}

/// The commit that a document describes: an object with the text entries `id`
/// and `message` and the boolean entry `distinct`, looked for in that order.
pub open spec fn commit_of(tree: Tree) -> Result<CommitView, Failure> {
    match tree {
        Tree::Object(entries) => match text_of(entries, "id"@) {
            Err(e) => Err(e),
            Ok(id) => match text_of(entries, "message"@) {
                Err(e) => Err(e),
                Ok(message) => match flag_of(entries, "distinct"@) {
                    Err(e) => Err(e),
                    Ok(distinct) => Ok(CommitView { id, message, distinct }),
                },
            },
        },
        _ => Err(Failure::Malformed),
    }
}

/// The commits that a sequence of documents describes, in their order; where
/// some do not describe one, the failure of the first of those.
pub open spec fn commits_of(items: Seq<Tree>) -> Result<Seq<CommitView>, Failure>
    decreases items.len(),
{
    if items.len() == 0 {
        Ok(Seq::empty())
    } else {
        match commits_of(items.drop_last()) {
            Err(e) => Err(e),
            Ok(front) => match commit_of(items.last()) {
                Err(e) => Err(e),
                Ok(commit) => Ok(front.push(commit)),
            },
        }
    }
}

/// The push that an object describes: the text entry `before`, then the array
/// entry `commits`.
pub open spec fn push_of(entries: Seq<(Seq<char>, Tree)>) -> Result<EventView, Failure> {
    match text_of(entries, "before"@) {
        Err(e) => Err(e),
        Ok(before) => match lookup(entries, "commits"@) {
            None => Err(Failure::MissingField("commits"@)),
            Some(Tree::Array(items)) => match commits_of(items) {
                Err(e) => Err(e),
                Ok(commits) => Ok(EventView::Push { before, commits }),
            },
            Some(_) => Err(Failure::Malformed),
        },
    }
}

/// Whether an object has the shape of a push.
pub open spec fn push_shaped(entries: Seq<(Seq<char>, Tree)>) -> bool {
    lookup(entries, "before"@) is Some || lookup(entries, "commits"@) is Some
}

/// The event that a document describes.
pub open spec fn event_of(tree: Tree) -> Result<EventView, Failure> {
    match tree {
        Tree::Object(entries) => if push_shaped(entries) {
            push_of(entries)
        } else if lookup(entries, "action"@) is Some {
            match text_of(entries, "action"@) {
                Err(e) => Err(e),
                Ok(action) => Ok(EventView::Generic { action }),
            }
        } else {
            Ok(EventView::Unrecognized)
        },
        _ => Err(Failure::Malformed),
    }
}

/// The event that a payload describes. A payload that is not a JSON document
/// is malformed.
pub open spec fn decoded(body: Seq<u8>) -> Result<EventView, Failure> {
    match parsed(body) {
        None => Err(Failure::Malformed),
        Some(tree) => event_of(tree),
    }
}

/// Reads the required text entry `name` of an object.
fn text_field(json: &Json, name: &str) -> (r: Result<String, DecodeError>)
    requires
        json@ is Object,
    ensures
        match r {
            Ok(s) => text_of(json@->Object_0, name@) == Ok::<Seq<char>, Failure>(s@),
            Err(e) => text_of(json@->Object_0, name@) == Err::<Seq<char>, Failure>(e@),
        },
{
    match json.field(name) {
        None => Err(DecodeError::MissingField(String::from_str(name))),
        Some(Json::Text(s)) => Ok(s.clone()),
        Some(_) => Err(DecodeError::Malformed),
    }
}

/// Reads the required boolean entry `name` of an object.
fn flag_field(json: &Json, name: &str) -> (r: Result<bool, DecodeError>)
    requires
        json@ is Object,
    ensures
        match r {
            Ok(b) => flag_of(json@->Object_0, name@) == Ok::<bool, Failure>(b),
            Err(e) => flag_of(json@->Object_0, name@) == Err::<bool, Failure>(e@),
        },
{
    match json.field(name) {
        None => Err(DecodeError::MissingField(String::from_str(name))),
        Some(Json::Bool(b)) => Ok(*b),
        Some(_) => Err(DecodeError::Malformed),
    }
}

/// Decodes one commit.
fn decode_commit(json: &Json) -> (r: Result<Commit, DecodeError>)
    ensures
        match r {
            Ok(c) => commit_of(json@) == Ok::<CommitView, Failure>(c@),
            Err(e) => commit_of(json@) == Err::<CommitView, Failure>(e@),
        },
{
    match json {
        Json::Object(_) => {
            let id = match text_field(json, "id") {
                Ok(s) => s,
                Err(e) => {
                    return Err(e);
                },
            };
            let message = match text_field(json, "message") {
                Ok(s) => s,
                Err(e) => {
                    return Err(e);
                },
            };
            let distinct = match flag_field(json, "distinct") {
                Ok(b) => b,
                Err(e) => {
                    return Err(e);
                },
            };
            Ok(Commit { id, message, distinct })
        },
        _ => Err(DecodeError::Malformed),
    }
}

/// Decodes the commits of a push, in order.
fn decode_commits(items: &Vec<Json>) -> (r: Result<Vec<Commit>, DecodeError>)
    ensures
        match r {
            Ok(commits) => commits_of(Json::Array(*items)@->Array_0) == Ok::<
                Seq<CommitView>,
                Failure,
            >(commits@.map_values(|c: Commit| c@)),
            Err(e) => commits_of(Json::Array(*items)@->Array_0) == Err::<Seq<CommitView>, Failure>(
                e@,
            ),
        },
{
    let ghost trees = Json::Array(*items)@->Array_0;
    let mut commits: Vec<Commit> = Vec::new();
    let mut i: usize = 0;
    assert(trees.take(0) =~= Seq::<Tree>::empty());
    assert(commits@.map_values(|c: Commit| c@) =~= Seq::<CommitView>::empty());
    while i < items.len()
        invariant
            i <= items.len(),
            trees == Json::Array(*items)@->Array_0,
            trees.len() == items.len(),
            forall|k: int| 0 <= k < items.len() ==> trees[k] == (#[trigger] items[k])@,
            commits_of(trees.take(i as int)) == Ok::<Seq<CommitView>, Failure>(
                commits@.map_values(|c: Commit| c@),
            ),
        decreases items.len() - i,
    {
        proof {
            let upto = trees.take(i + 1);
            assert(upto.drop_last() =~= trees.take(i as int));
            assert(upto.last() == trees[i as int]);
        }
        match decode_commit(&items[i]) {
            Ok(commit) => {
                let ghost before = commits@.map_values(|c: Commit| c@);
                commits.push(commit);
                assert(commits@.map_values(|c: Commit| c@) =~= before.push(commit@));
            },
            Err(e) => {
                proof {
                    lemma_commits_stop_at_failure(trees, i + 1);
                }
                return Err(e);
            },
        }
        i += 1;
    }
    assert(trees.take(i as int) =~= trees);
    Ok(commits)
}

/// A failure among the first `n` documents is the failure of them all.
proof fn lemma_commits_stop_at_failure(items: Seq<Tree>, n: int)
    requires
        0 <= n <= items.len(),
        commits_of(items.take(n)) is Err,
    ensures
        commits_of(items) == commits_of(items.take(n)),
    decreases items.len() - n,
{
    if n < items.len() {
        let next = items.take(n + 1);
        assert(next.drop_last() =~= items.take(n));
        lemma_commits_stop_at_failure(items, n + 1);
    } else {
        assert(items.take(n) =~= items);
    }
}

/// Decodes a document into the event it describes.
pub fn decode_json(json: &Json) -> (r: Result<Event, DecodeError>)
    ensures
        outcome(r) == event_of(json@),
{
    match json {
        Json::Object(_) => {
            let before = json.field("before");
            let commits = json.field("commits");
            if before.is_some() || commits.is_some() {
                let before = match text_field(json, "before") {
                    Ok(s) => s,
                    Err(e) => {
                        return Err(e);
                    },
                };
                match commits {
                    None => Err(DecodeError::MissingField(String::from_str("commits"))),
                    Some(Json::Array(items)) => match decode_commits(items) {
                        Ok(commits) => Ok(Event::Push { before, commits }),
                        Err(e) => Err(e),
                    },
                    Some(_) => Err(DecodeError::Malformed),
                }
            } else if json.field("action").is_some() {
                match text_field(json, "action") {
                    Ok(action) => Ok(Event::Generic { action }),
                    Err(e) => Err(e),
                }
            } else {
                Ok(Event::Unrecognized)
            }
        },
        _ => Err(DecodeError::Malformed),
    }
}

/// Decodes a payload. Total over every byte sequence: what is not a JSON
/// document is reported as malformed.
pub fn decode(body: &[u8]) -> (r: Result<Event, DecodeError>)
    ensures
        outcome(r) == decoded(body@),
{
    match parse(body) {
        None => Err(DecodeError::Malformed),
        Some(json) => decode_json(&json),
    }
}


/// The document that describes a commit.
pub open spec fn commit_tree(commit: CommitView) -> Tree {
    Tree::Object(
        seq![
            ("id"@, Tree::Text(commit.id)),
            ("message"@, Tree::Text(commit.message)),
            ("distinct"@, Tree::Bool(commit.distinct)),
        ],
    )
}

/// The document that describes an event.
pub open spec fn encoded(event: EventView) -> Tree {
    match event {
        EventView::Push { before, commits } => Tree::Object(
            seq![
                ("before"@, Tree::Text(before)),
                ("commits"@, Tree::Array(commits.map_values(|c: CommitView| commit_tree(c)))),
            ],
        ),
        EventView::Generic { action } => Tree::Object(seq![("action"@, Tree::Text(action))]),
        EventView::Unrecognized => Tree::Object(Seq::empty()),
    }
}

/// Encodes one commit.
fn encode_commit(commit: &Commit) -> (json: Json)
    ensures
        json@ == commit_tree(commit@),
{
    let mut entries: Vec<(String, Json)> = Vec::new();
    entries.push((String::from_str("id"), Json::Text(commit.id.clone())));
    entries.push((String::from_str("message"), Json::Text(commit.message.clone())));
    entries.push((String::from_str("distinct"), Json::Bool(commit.distinct)));
    proof {
        lemma_object_tree(entries);
    }
    let json = Json::Object(entries);
    assert(json@->Object_0 =~= commit_tree(commit@)->Object_0);
    json
}

/// Encodes an event as the document that describes it.
pub fn encode(event: &Event) -> (json: Json)
    ensures
        json@ == encoded(event@),
{
    match event {
        Event::Push { before, commits } => {
            let mut items: Vec<Json> = Vec::new();
            let mut i: usize = 0;
            while i < commits.len()
                invariant
                    i <= commits.len(),
                    items.len() == i,
                    forall|k: int| 0 <= k < i ==> (#[trigger] items[k])@ == commit_tree(commits[k]@),
                decreases commits.len() - i,
            {
                items.push(encode_commit(&commits[i]));
                i += 1;
            }
            proof {
                lemma_array_tree(items);
            }
            let array = Json::Array(items);
            assert(array@->Array_0 =~= commits@.map_values(|c: Commit| c@).map_values(
                |c: CommitView| commit_tree(c),
            ));
            let mut entries: Vec<(String, Json)> = Vec::new();
            entries.push((String::from_str("before"), Json::Text(before.clone())));
            entries.push((String::from_str("commits"), array));
            proof {
                lemma_object_tree(entries);
            }
            let json = Json::Object(entries);
            assert(json@->Object_0 =~= encoded(event@)->Object_0);
            json
        },
        Event::Generic { action } => {
            let mut entries: Vec<(String, Json)> = Vec::new();
            entries.push((String::from_str("action"), Json::Text(action.clone())));
            proof {
                lemma_object_tree(entries);
            }
            let json = Json::Object(entries);
            assert(json@->Object_0 =~= encoded(event@)->Object_0);
            json
        },
        Event::Unrecognized => {
            let entries: Vec<(String, Json)> = Vec::new();
            proof {
                lemma_object_tree(entries);
            }
            let json = Json::Object(entries);
            assert(json@->Object_0 =~= encoded(event@)->Object_0);
            json
        },
    }
}

/// A payload that is not a JSON document is malformed, whatever its bytes.
pub proof fn lemma_non_json_is_malformed(body: Seq<u8>)
    requires
        parsed(body) is None,
    ensures
        decoded(body) == Err::<EventView, Failure>(Failure::Malformed),
{
}

/// Whether decoding looks for an entry of this name.
pub open spec fn known_name(name: Seq<char>) -> bool {
    ||| name == "before"@
    ||| name == "commits"@
    ||| name == "action"@
    ||| name == "id"@
    ||| name == "message"@
    ||| name == "distinct"@
}

/// An entry put behind the others is found under its own name only.
pub proof fn lemma_lookup_skips_other_names(
    entries: Seq<(Seq<char>, Tree)>,
    extra: (Seq<char>, Tree),
    name: Seq<char>,
)
    requires
        extra.0 != name,
    ensures
        lookup(entries.push(extra), name) == lookup(entries, name),
    decreases entries.len(),
{
    let more = entries.push(extra);
    if entries.len() == 0 {
        assert(more.drop_first() =~= entries);
    } else {
        assert(more[0] == entries[0]);
        assert(more.drop_first() =~= entries.drop_first().push(extra));
        lemma_lookup_skips_other_names(entries.drop_first(), extra, name);
    }
}

/// Unknown entries are ignored: an object with one more entry, under a name
/// that decoding does not look for, describes the same event, and the same
/// commit.
pub proof fn lemma_unknown_entry_is_ignored(
    entries: Seq<(Seq<char>, Tree)>,
    extra: (Seq<char>, Tree),
)
    requires
        !known_name(extra.0),
    ensures
        event_of(Tree::Object(entries.push(extra))) == event_of(Tree::Object(entries)),
        commit_of(Tree::Object(entries.push(extra))) == commit_of(Tree::Object(entries)),
{
    lemma_lookup_skips_other_names(entries, extra, "before"@);
    lemma_lookup_skips_other_names(entries, extra, "commits"@);
    lemma_lookup_skips_other_names(entries, extra, "action"@);
    lemma_lookup_skips_other_names(entries, extra, "id"@);
    lemma_lookup_skips_other_names(entries, extra, "message"@);
    lemma_lookup_skips_other_names(entries, extra, "distinct"@);
}

/// A commit that cannot be decoded for want of an entry wants `id`,
/// `message` or `distinct`.
pub proof fn lemma_commit_misses_its_own_fields(tree: Tree)
    ensures
        commit_of(tree) matches Err(Failure::MissingField(name)) ==> name == "id"@ || name
            == "message"@ || name == "distinct"@,
{
}

/// Commits that cannot be decoded for want of an entry want `id`, `message`
/// or `distinct`.
pub proof fn lemma_commits_miss_their_own_fields(items: Seq<Tree>)
    ensures
        commits_of(items) matches Err(Failure::MissingField(name)) ==> name == "id"@ || name
            == "message"@ || name == "distinct"@,
    decreases items.len(),
{
    if items.len() > 0 {
        lemma_commits_miss_their_own_fields(items.drop_last());
        lemma_commit_misses_its_own_fields(items.last());
    }
}

/// A missing field is always one that the selected event requires: `before`
/// or `commits` of a push, or `id`, `message` or `distinct` of one of its
/// commits. A generic or unrecognized event misses nothing.
pub proof fn lemma_missing_field_is_required(tree: Tree)
    ensures
        event_of(tree) matches Err(Failure::MissingField(name)) ==> {
            &&& tree matches Tree::Object(entries)
            &&& push_shaped(entries)
            &&& name == "before"@ || name == "commits"@ || name == "id"@ || name == "message"@
                || name == "distinct"@
        },
{
    if let Tree::Object(entries) = tree {
        if push_shaped(entries) {
            if let Some(Tree::Array(items)) = lookup(entries, "commits"@) {
                lemma_commits_miss_their_own_fields(items);
            }
        }
    }
}

/// The names of the entries that decoding looks for differ from one another.
proof fn lemma_names_differ()
    ensures
        "before"@ != "commits"@,
        "before"@ != "action"@,
        "commits"@ != "action"@,
        "id"@ != "message"@,
        "id"@ != "distinct"@,
        "message"@ != "distinct"@,
{
    reveal_strlit("before");
    reveal_strlit("commits");
    reveal_strlit("action");
    reveal_strlit("id");
    reveal_strlit("message");
    reveal_strlit("distinct");
    assert("before"@[0] != "commits"@[0]);
    assert("before"@[0] != "action"@[0]);
    assert("commits"@[0] != "action"@[0]);
    assert("id"@[0] != "message"@[0]);
    assert("id"@[0] != "distinct"@[0]);
    assert("message"@[0] != "distinct"@[0]);
}

/// The document of a commit decodes to that commit.
pub proof fn lemma_commit_round_trip(commit: CommitView)
    ensures
        commit_of(commit_tree(commit)) == Ok::<CommitView, Failure>(commit),
{
    lemma_names_differ();
    let entries = commit_tree(commit)->Object_0;
    reveal_with_fuel(lookup, 4);
    assert(lookup(entries, "id"@) == Some(Tree::Text(commit.id)));
    assert(entries.drop_first()[0] == entries[1]);
    assert(lookup(entries, "message"@) == Some(Tree::Text(commit.message)));
    assert(entries.drop_first().drop_first()[0] == entries[2]);
    assert(lookup(entries, "distinct"@) == Some(Tree::Bool(commit.distinct)));
}

/// The documents of a sequence of commits decode to those commits.
pub proof fn lemma_commits_round_trip(commits: Seq<CommitView>)
    ensures
        commits_of(commits.map_values(|c: CommitView| commit_tree(c))) == Ok::<
            Seq<CommitView>,
            Failure,
        >(commits),
    decreases commits.len(),
{
    let trees = commits.map_values(|c: CommitView| commit_tree(c));
    if commits.len() == 0 {
        assert(commits =~= Seq::<CommitView>::empty());
    } else {
        let front = commits.drop_last();
        assert(trees.drop_last() =~= front.map_values(|c: CommitView| commit_tree(c)));
        lemma_commits_round_trip(front);
        lemma_commit_round_trip(commits.last());
        assert(front.push(commits.last()) =~= commits);
    }
}

/// Decoding the document of an event gives that event back: for a push its
/// `before` and, of each commit in order, `id`, `message` and `distinct`.
pub proof fn lemma_encode_then_decode(event: EventView)
    ensures
        event_of(encoded(event)) == Ok::<EventView, Failure>(event),
{
    lemma_names_differ();
    reveal_with_fuel(lookup, 3);
    let entries = encoded(event)->Object_0;
    match event {
        EventView::Push { before, commits } => {
            assert(lookup(entries, "before"@) == Some(Tree::Text(before)));
            assert(entries.drop_first()[0] == entries[1]);
            assert(lookup(entries, "commits"@) == Some(
                Tree::Array(commits.map_values(|c: CommitView| commit_tree(c))),
            ));
            lemma_commits_round_trip(commits);
        },
        EventView::Generic { action } => {
            assert(lookup(entries, "action"@) == Some(Tree::Text(action)));
            assert(lookup(entries, "before"@) is None);
            assert(lookup(entries, "commits"@) is None);
        },
        EventView::Unrecognized => {},
    }
}

/// Decoding a document, encoding the event and decoding again gives the same
/// event: nothing that decoding reports is lost in encoding.
pub proof fn lemma_decode_round_trip(tree: Tree)
    ensures
        event_of(tree) matches Ok(event) ==> event_of(encoded(event)) == event_of(tree),
{
    if let Ok(event) = event_of(tree) {
        lemma_encode_then_decode(event);
    }
}

} // verus!
