//! The event classifier: a pure function from a completed block's text to a
//! typed [`Message`], by literal prefix match on the block's head and by
//! `Key: Value` parsing of its lines.

use vstd::prelude::*;
use crate::message::{Message, MessageModel, SipStatus};
use crate::parse::{parse_status_code, spec_parse_signed, spec_status_code};
use crate::text::{
    contains_seq, find_first, find_first_exec, lemma_find_first, spec_lines, split_lines,
    starts_with, str_contains, str_eq, str_starts_with,
};

verus! {

/// The key of a `Key: Value` line: what stands before the first `": "`, or
/// the whole line when there is none.
pub open spec fn line_key(l: Seq<char>) -> Seq<char> {
    let i = find_first(l, ": "@);
    if i < 0 {
        l
    } else {
        l.subrange(0, i)
    }
}

/// The value of a `Key: Value` line: what stands between the first `": "`
/// and the next, or up to the line's end; empty when the line has no `": "`.
pub open spec fn line_value(l: Seq<char>) -> Seq<char> {
    let i = find_first(l, ": "@);
    if i < 0 {
        Seq::empty()
    } else {
        let rest = l.subrange(i + 2, l.len() as int);
        let j = find_first(rest, ": "@);
        if j < 0 {
            rest
        } else {
            rest.subrange(0, j)
        }
    }
}

/// The key-value mapping a block's lines denote; a later line with the same
/// key overwrites an earlier one.
pub open spec fn map_of_lines(ls: Seq<Seq<char>>) -> Map<Seq<char>, Seq<char>>
    decreases ls.len(),
{
    if ls.len() == 0 {
        Map::empty()
    } else {
        map_of_lines(ls.drop_last()).insert(line_key(ls.last()), line_value(ls.last()))
    }
}

/// The key-value mapping of a whole block.
pub open spec fn spec_get_map(s: Seq<char>) -> Map<Seq<char>, Seq<char>> {
    map_of_lines(spec_lines(s))
}

/// A key is in the mapping exactly when some line bears it, and its value is
/// the value of the last such line.
pub proof fn lemma_map_of_lines(ls: Seq<Seq<char>>, k: Seq<char>)
    ensures
        map_of_lines(ls).contains_key(k) <==> exists|i: int|
            0 <= i < ls.len() && line_key(#[trigger] ls[i]) == k,
        map_of_lines(ls).contains_key(k) ==> exists|i: int|
            0 <= i < ls.len() && line_key(#[trigger] ls[i]) == k && map_of_lines(ls)[k]
                == line_value(ls[i]) && (forall|j: int|
                i < j < ls.len() ==> line_key(#[trigger] ls[j]) != k),
    decreases ls.len(),
{
    if ls.len() == 0 {
    } else {
        let prefix = ls.drop_last();
        lemma_map_of_lines(prefix, k);
        let last = ls.last();
        if line_key(last) == k {
            let i = ls.len() - 1;
            assert(ls[i] == last);
            assert(map_of_lines(ls)[k] == line_value(ls[i]));
        } else {
            assert(map_of_lines(ls).contains_key(k) == map_of_lines(prefix).contains_key(k));
            if map_of_lines(prefix).contains_key(k) {
                let i = choose|i: int|
                    0 <= i < prefix.len() && line_key(#[trigger] prefix[i]) == k && map_of_lines(
                        prefix,
                    )[k] == line_value(prefix[i]) && (forall|j: int|
                        i < j < prefix.len() ==> line_key(#[trigger] prefix[j]) != k);
                assert(prefix[i] == ls[i]);
                assert(map_of_lines(ls)[k] == line_value(ls[i]));
                assert(forall|j: int|
                    i < j < ls.len() - 1 ==> line_key(#[trigger] ls[j]) == line_key(prefix[j]));
            } else {
                assert forall|i: int| 0 <= i < ls.len() implies line_key(#[trigger] ls[i]) != k by {
                    if i < ls.len() - 1 {
                        assert(ls[i] == prefix[i]);
                    }
                }
            }
        }
    }
}

/// The key of one line, as an owned string.
fn line_key_of(l: &str) -> (k: String)
    ensures
        k@ == line_key(l@),
{
    proof {
        lemma_find_first(l@, ": "@);
    }
    match find_first_exec(l, ": ") {
        None => l.to_owned(),
        Some(i) => {
            let k = l.substring_char(0, i);
            k.to_owned()
        },
    }
}

/// The value of one line, as an owned string.
fn line_value_of(l: &str) -> (v: String)
    ensures
        v@ == line_value(l@),
{
    proof {
        lemma_find_first(l@, ": "@);
        reveal_strlit(": ");
    }
    match find_first_exec(l, ": ") {
        None => String::new(),
        Some(i) => {
            let n = l.unicode_len();
            let rest = l.substring_char(i + 2, n);
            proof {
                lemma_find_first(rest@, ": "@);
            }
            match find_first_exec(rest, ": ") {
                None => rest.to_owned(),
                Some(j) => {
                    let v = rest.substring_char(0, j);
                    v.to_owned()
                },
            }
        },
    }
}

/// The `Key: Value` pairs of a block's lines, in line order.
pub fn get_map(val: &str) -> (pairs: Vec<(String, String)>)
    ensures
        pairs@.len() == spec_lines(val@).len(),
        forall|i: int|
            0 <= i < pairs@.len() ==> (#[trigger] pairs@[i]).0@ == line_key(spec_lines(val@)[i])
                && pairs@[i].1@ == line_value(spec_lines(val@)[i]),
{
    let lines = split_lines(val);
    let mut pairs: Vec<(String, String)> = Vec::new();
    let mut i: usize = 0;
    while i < lines.len()
        invariant
            0 <= i <= lines.len(),
            lines@.len() == spec_lines(val@).len(),
            forall|j: int| 0 <= j < lines@.len() ==> #[trigger] lines@[j]@ == spec_lines(val@)[j],
            pairs@.len() == i,
            forall|j: int|
                0 <= j < i ==> (#[trigger] pairs@[j]).0@ == line_key(spec_lines(val@)[j])
                    && pairs@[j].1@ == line_value(spec_lines(val@)[j]),
        decreases lines.len() - i,
    {
        let l = &lines[i];
        let k = line_key_of(l.as_str());
        let v = line_value_of(l.as_str());
        pairs.push((k, v));
        i += 1;
    }
    pairs
}

/// The value of the named field in a block, when any of the block's lines
/// bears that key; `None` otherwise.
pub fn get_field(val: &str, key: &str) -> (r: Option<String>)
    ensures
        match r {
            Some(v) => spec_get_map(val@).contains_key(key@) && v@ == spec_get_map(val@)[key@],
            None => !spec_get_map(val@).contains_key(key@),
        },
{
    let pairs = get_map(val);
    let ghost ls = spec_lines(val@);
    let mut i: usize = pairs.len();
    while i > 0
        invariant
            0 <= i <= pairs.len(),
            pairs@.len() == ls.len(),
            ls == spec_lines(val@),
            forall|j: int|
                0 <= j < pairs@.len() ==> (#[trigger] pairs@[j]).0@ == line_key(ls[j])
                    && pairs@[j].1@ == line_value(ls[j]),
            forall|j: int| i <= j < ls.len() ==> line_key(#[trigger] ls[j]) != key@,
        decreases i,
    {
        i -= 1;
        let found = str_eq(pairs[i].0.as_str(), key);
        if found {
            proof {
                lemma_map_of_lines(ls, key@);
                assert(line_key(ls[i as int]) == key@);
                let w = choose|w: int|
                    0 <= w < ls.len() && line_key(#[trigger] ls[w]) == key@ && map_of_lines(ls)[key@]
                        == line_value(ls[w]) && (forall|j: int|
                        w < j < ls.len() ==> line_key(#[trigger] ls[j]) != key@);
                if w < i {
                    assert(line_key(ls[i as int]) != key@);
                }
                if w > i {
                    assert(line_key(ls[w]) != key@);
                }
                assert(w == i);
            }
            let v = pairs[i].1.clone();
            return Some(v);
        }
    }
    proof {
        lemma_map_of_lines(ls, key@);
    }
    None
}

/// The status-update message a block denotes: `Sip` with the `Exten`,
/// `Status` and `StatusText` fields when all three are present, with a code
/// of 0 where `Status` is not a small integer; `Unknown` otherwise.
pub open spec fn spec_sip_status(s: Seq<char>) -> MessageModel {
    let m = spec_get_map(s);
    if m.contains_key("Exten"@) && m.contains_key("Status"@) && m.contains_key("StatusText"@) {
        MessageModel::Sip {
            exten: m["Exten"@],
            code: spec_status_code(m["Status"@]),
            text: m["StatusText"@],
        }
    } else {
        MessageModel::Unknown
    }
}

/// The status-update message a block denotes; see [`spec_sip_status`].
pub fn sip_status(val: &str) -> (m: Message)
    ensures
        m@ == spec_sip_status(val@),
{
    let e = get_field(val, "Exten");
    let st = get_field(val, "Status");
    let tx = get_field(val, "StatusText");
    match (e, st, tx) {
        (Some(e), Some(st), Some(tx)) => {
            let code = parse_status_code(st.as_str());
            Message::Sip(e, SipStatus { status: code, status_text: tx })
        },
        _ => Message::Unknown,
    }
}

/// The contact message a block denotes: `Contact` with the `ObjectName` and
/// `Contacts` fields when both are present, `Unknown` otherwise.
pub open spec fn spec_contact(s: Seq<char>) -> MessageModel {
    let m = spec_get_map(s);
    if m.contains_key("ObjectName"@) && m.contains_key("Contacts"@) {
        MessageModel::Contact { name: m["ObjectName"@], contact: m["Contacts"@] }
    } else {
        MessageModel::Unknown
    }
}

/// The contact message a block denotes; see [`spec_contact`].
pub fn contact(val: &str) -> (m: Message)
    ensures
        m@ == spec_contact(val@),
{
    let name = get_field(val, "ObjectName");
    let uri = get_field(val, "Contacts");
    match (name, uri) {
        (Some(name), Some(uri)) => Message::Contact { contact: uri, name },
        _ => Message::Unknown,
    }
}

/// The message a generic response or event block denotes: `Start` when the
/// block contains `EventList: start`, else its status update, if any.
pub open spec fn spec_process(s: Seq<char>) -> MessageModel {
    if contains_seq(s, "EventList: start"@) {
        MessageModel::Start
    } else {
        spec_sip_status(s)
    }
}

/// The message a generic response or event block denotes; see [`spec_process`].
pub fn process(val: &str) -> (m: Message)
    ensures
        m@ == spec_process(val@),
{
    if str_contains(val, "EventList: start") {
        Message::Start
    } else {
        sip_status(val)
    }
}

/// The classification table, by literal prefix of the block, first match
/// first: a successful response is decoded generically; any other response is
/// `Unknown`; the discovery-completion marker, a discovered contact and an
/// extension-status event map to their payloads; anything else produces no
/// message. An extension-status event whose payload is not a status update
/// also produces no message.
pub open spec fn spec_classify(s: Seq<char>) -> Option<MessageModel> {
    if starts_with(s, "Response: Success"@) {
        Some(spec_process(s))
    } else if starts_with(s, "Response: "@) {
        Some(MessageModel::Unknown)
    } else if starts_with(s, "Event: AorListComplete"@) {
        Some(MessageModel::Complete)
    } else if starts_with(s, "Event: AorList"@) {
        Some(spec_contact(s))
    } else if starts_with(s, "Event: ExtensionStatus"@) {
        if spec_process(s) is Sip {
            Some(spec_process(s))
        } else {
            None
        }
    } else {
        None
    }
}

proof fn lemma_prefix_char(s: Seq<char>, p: Seq<char>, i: int)
    requires
        starts_with(s, p),
        0 <= i < p.len(),
    ensures
        s[i] == p[i],
{
    assert(s.subrange(0, p.len() as int)[i] == p[i]);
}

proof fn lemma_not_both_prefixes(s: Seq<char>, p: Seq<char>, q: Seq<char>, i: int)
    requires
        starts_with(s, p),
        0 <= i < p.len(),
        i < q.len(),
        p[i] != q[i],
    ensures
        !starts_with(s, q),
{
    if starts_with(s, q) {
        lemma_prefix_char(s, p, i);
        lemma_prefix_char(s, q, i);
    }
}

proof fn lemma_extension_status_branch(s: Seq<char>)
    requires
        starts_with(s, "Event: ExtensionStatus"@),
    ensures
        spec_classify(s) == (if spec_process(s) is Sip {
            Some(spec_process(s))
        } else {
            None::<MessageModel>
        }),
{
    reveal_strlit("Event: ExtensionStatus");
    reveal_strlit("Response: Success");
    reveal_strlit("Response: ");
    reveal_strlit("Event: AorListComplete");
    reveal_strlit("Event: AorList");
    lemma_not_both_prefixes(s, "Event: ExtensionStatus"@, "Response: Success"@, 0);
    lemma_not_both_prefixes(s, "Event: ExtensionStatus"@, "Response: "@, 0);
    lemma_not_both_prefixes(s, "Event: ExtensionStatus"@, "Event: AorListComplete"@, 7);
    lemma_not_both_prefixes(s, "Event: ExtensionStatus"@, "Event: AorList"@, 7);
}

/// An extension-status event whose block carries the extension, a status
/// field denoting a small integer, and the status text, classifies as a
/// status update carrying exactly those three: the extension, the integer as
/// the code, and the text.
pub proof fn law_extension_status_classified(s: Seq<char>, v: int)
    requires
        starts_with(s, "Event: ExtensionStatus"@),
        !contains_seq(s, "EventList: start"@),
        spec_get_map(s).contains_key("Exten"@),
        spec_get_map(s).contains_key("Status"@),
        spec_get_map(s).contains_key("StatusText"@),
        spec_parse_signed(spec_get_map(s)["Status"@]) == Some(v),
        -128 <= v <= 127,
    ensures
        spec_classify(s) == Some(MessageModel::Sip {
            exten: spec_get_map(s)["Exten"@],
            code: v,
            text: spec_get_map(s)["StatusText"@],
        }),
{
    lemma_extension_status_branch(s);
}

/// An extension-status event whose status field does not denote an integer
/// still classifies as a status update — no error is raised — with a code of
/// 0 and the status text preserved.
pub proof fn law_nonnumeric_status_defaults(s: Seq<char>)
    requires
        starts_with(s, "Event: ExtensionStatus"@),
        !contains_seq(s, "EventList: start"@),
        spec_get_map(s).contains_key("Exten"@),
        spec_get_map(s).contains_key("Status"@),
        spec_get_map(s).contains_key("StatusText"@),
        spec_parse_signed(spec_get_map(s)["Status"@]) is None,
    ensures
        spec_classify(s) == Some(MessageModel::Sip {
            exten: spec_get_map(s)["Exten"@],
            code: 0,
            text: spec_get_map(s)["StatusText"@],
        }),
{
    lemma_extension_status_branch(s);
}

/// A contact-list event missing its `Contacts` field classifies as
/// `Unknown`, never as a malformed contact.
pub proof fn law_aor_list_missing_contacts(s: Seq<char>)
    requires
        starts_with(s, "Event: AorList"@),
        !starts_with(s, "Event: AorListComplete"@),
        !spec_get_map(s).contains_key("Contacts"@),
    ensures
        spec_classify(s) == Some(MessageModel::Unknown),
{
    reveal_strlit("Event: AorList");
    reveal_strlit("Response: Success");
    reveal_strlit("Response: ");
    lemma_not_both_prefixes(s, "Event: AorList"@, "Response: Success"@, 0);
    lemma_not_both_prefixes(s, "Event: AorList"@, "Response: "@, 0);
}

/// A block that was only its terminating blank line — empty text after
/// trimming — matches no prefix of the classification table and yields no
/// message at all.
pub proof fn law_blank_block_unclassified()
    ensures
        spec_classify(Seq::<char>::empty()) is None,
{
    reveal_strlit("Response: Success");
    reveal_strlit("Response: ");
    reveal_strlit("Event: AorListComplete");
    reveal_strlit("Event: AorList");
    reveal_strlit("Event: ExtensionStatus");
}

/// Classify one completed block; see [`spec_classify`].
pub fn classify(val: &str) -> (m: Option<Message>)
    ensures
        match m {
            Some(msg) => spec_classify(val@) == Some(msg@),
            None => spec_classify(val@) is None,
        },
{
    if str_starts_with(val, "Response: Success") {
        Some(process(val))
    } else if str_starts_with(val, "Response: ") {
        Some(Message::Unknown)
    } else if str_starts_with(val, "Event: AorListComplete") {
        Some(Message::Complete)
    } else if str_starts_with(val, "Event: AorList") {
        Some(contact(val))
    } else if str_starts_with(val, "Event: ExtensionStatus") {
        let m = process(val);
        if let Message::Sip(e, st) = m {
            Some(Message::Sip(e, st))
        } else {
            None
        }
    } else {
        None
    }
}

} // verus!
