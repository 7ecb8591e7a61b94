//! The typed protocol events: a contact's status, a discovered contact, and
//! the message variants the classifier produces, together with their
//! mathematical models.

use vstd::prelude::*;

verus! {

/// A contact's current state: the protocol's numeric device-state code and
/// its human-readable label.
pub struct SipStatus {
    pub status: i8,
    pub status_text: String,
}

/// Model of a [`SipStatus`]: the code as an integer and the label's characters.
pub ghost struct StatusModel {
    pub code: int,
    pub text: Seq<char>,
}

impl View for SipStatus {
    type V = StatusModel;

    open spec fn view(&self) -> StatusModel {
        StatusModel { code: self.status as int, text: self.status_text@ }
    }
}

/// A monitored endpoint. Its identity is `name` alone; `contact` is
/// auxiliary display data.
pub struct Contact {
    pub name: String,
    pub contact: String,
}

/// Model of a [`Contact`]: the characters of its two fields.
pub ghost struct ContactModel {
    pub name: Seq<char>,
    pub contact: Seq<char>,
}

impl View for Contact {
    type V = ContactModel;

    open spec fn view(&self) -> ContactModel {
        ContactModel { name: self.name@, contact: self.contact@ }
    }
}

impl Contact {
    /// A contact known by name alone, with empty auxiliary data.
    pub fn from_name(name: String) -> (c: Contact)
        ensures
            c@.name == name@,
            c@.contact == Seq::<char>::empty(),
    {
        Contact { name, contact: String::new() }
    }
}

impl PartialEq for Contact {
    /// Two contacts are the same endpoint when their names agree.
    fn eq(&self, other: &Contact) -> (r: bool) {
        self.name == other.name
    }
}

impl vstd::std_specs::cmp::PartialEqSpecImpl for Contact {
    open spec fn obeys_eq_spec() -> bool {
        true
    }

    open spec fn eq_spec(&self, other: &Contact) -> bool {
        self.name@ == other.name@
    }
}

/// One classified protocol event.
pub enum Message {
    /// A status report for the named extension.
    Sip(String, SipStatus),
    /// A discovered endpoint.
    Contact { contact: String, name: String },
    /// The head of a command response that opens an event list.
    Start,
    /// The discovery-completion marker.
    Complete,
    /// A live status update was applied to the table.
    Updated,
    /// A recognised block whose required fields are missing or malformed.
    Unknown,
}

/// Model of a [`Message`].
pub ghost enum MessageModel {
    Sip { exten: Seq<char>, code: int, text: Seq<char> },
    Contact { name: Seq<char>, contact: Seq<char> },
    Start,
    Complete,
    Updated,
    Unknown,
}

impl View for Message {
    type V = MessageModel;

    open spec fn view(&self) -> MessageModel {
        match self {
            Message::Sip(e, st) => MessageModel::Sip {
                exten: e@,
                code: st.status as int,
                text: st.status_text@,
            },
            Message::Contact { contact, name } => MessageModel::Contact {
                name: name@,
                contact: contact@,
            },
            Message::Start => MessageModel::Start,
            Message::Complete => MessageModel::Complete,
            Message::Updated => MessageModel::Updated,
            Message::Unknown => MessageModel::Unknown,
        }
    }
}

} // verus!
