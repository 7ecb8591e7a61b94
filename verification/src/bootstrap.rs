//! The bootstrap orchestrator: a state machine that drives the two-phase
//! startup. It first collects discovered contacts until the completion
//! marker, then polls each contact's extension state strictly in order, and
//! finally hands over a populated status table for the live phase. The
//! machine decides; the caller performs the sends and receives.

use vstd::prelude::*;
use crate::message::{Contact, ContactModel, Message, MessageModel, SipStatus, StatusModel};
use crate::table::{spec_live_update, StatusTable};

verus! {

/// Where the bootstrap stands.
#[derive(Clone, Copy, Debug, PartialEq, Eq, Structural)]
pub enum Phase {
    /// The discovery command was sent; the first reply must open an event list.
    AwaitStart,
    /// Discovered contacts are being collected until the completion marker.
    Collecting,
    /// Contacts are polled one at a time, in discovery order.
    Polling,
    /// Bootstrap is complete; the table is updated in place from now on.
    Live,
    /// A protocol violation ended the bootstrap.
    Failed,
}

/// What the caller must do after handing the machine one message.
pub enum Action {
    /// Keep receiving.
    Wait,
    /// Send an extension-state query for this contact name, then keep receiving.
    Query(String),
    /// Bootstrap is complete.
    Done,
    /// Abort the session: the protocol was violated.
    Fail,
}

/// Model of an [`Action`].
pub ghost enum ActionModel {
    Wait,
    Query(Seq<char>),
    Done,
    Fail,
}

impl View for Action {
    type V = ActionModel;

    open spec fn view(&self) -> ActionModel {
        match self {
            Action::Wait => ActionModel::Wait,
            Action::Query(q) => ActionModel::Query(q@),
            Action::Done => ActionModel::Done,
            Action::Fail => ActionModel::Fail,
        }
    }
}

/// Model of a [`Bootstrap`]: its phase, the contacts collected so far, how
/// many of them have been polled, and the table's mapping.
pub ghost struct BootModel {
    pub phase: Phase,
    pub contacts: Seq<ContactModel>,
    pub polled: int,
    pub table: Map<Seq<char>, StatusModel>,
}

/// The status payload of a status-update message, as a model.
pub open spec fn status_of(m: MessageModel) -> StatusModel {
    match m {
        MessageModel::Sip { exten, code, text } => StatusModel { code, text },
        _ => StatusModel { code: 0, text: Seq::empty() },
    }
}

/// One transition of the bootstrap machine.
pub open spec fn spec_step(b: BootModel, m: MessageModel) -> BootModel {
    match b.phase {
        Phase::AwaitStart => if m is Start {
            BootModel { phase: Phase::Collecting, ..b }
        } else {
            BootModel { phase: Phase::Failed, ..b }
        },
        Phase::Collecting => match m {
            MessageModel::Contact { name, contact } => BootModel {
                contacts: b.contacts.push(ContactModel { name, contact }),
                ..b
            },
            MessageModel::Complete => if b.contacts.len() == 0 {
                BootModel { phase: Phase::Live, ..b }
            } else {
                BootModel { phase: Phase::Polling, ..b }
            },
            _ => b,
        },
        Phase::Polling => if m is Sip {
            let b2 = BootModel {
                table: b.table.insert(b.contacts[b.polled].name, status_of(m)),
                polled: b.polled + 1,
                ..b
            };
            if b.polled + 1 == b.contacts.len() {
                BootModel { phase: Phase::Live, ..b2 }
            } else {
                b2
            }
        } else {
            BootModel { phase: Phase::Failed, ..b }
        },
        Phase::Live => b,
        Phase::Failed => b,
    }
}

/// The action one transition asks of the caller.
pub open spec fn spec_action(b: BootModel, m: MessageModel) -> ActionModel {
    match b.phase {
        Phase::AwaitStart => if m is Start {
            ActionModel::Wait
        } else {
            ActionModel::Fail
        },
        Phase::Collecting => match m {
            MessageModel::Complete => if b.contacts.len() == 0 {
                ActionModel::Done
            } else {
                ActionModel::Query(b.contacts[0].name)
            },
            _ => ActionModel::Wait,
        },
        Phase::Polling => if m is Sip {
            if b.polled + 1 == b.contacts.len() {
                ActionModel::Done
            } else {
                ActionModel::Query(b.contacts[b.polled + 1].name)
            }
        } else {
            ActionModel::Fail
        },
        Phase::Live => ActionModel::Wait,
        Phase::Failed => ActionModel::Fail,
    }
}

/// The bootstrap orchestrator.
pub struct Bootstrap {
    phase: Phase,
    contacts: Vec<Contact>,
    polled: usize,
    table: StatusTable,
}

impl Bootstrap {
    /// The machine's model.
    pub closed spec fn model(&self) -> BootModel {
        BootModel {
            phase: self.phase,
            contacts: Seq::new(self.contacts@.len(), |i: int| self.contacts@[i]@),
            polled: self.polled as int,
            table: self.table.as_map(),
        }
    }

    /// The machine's invariant: the table is well formed, and in the polling
    /// phase the poll position has not passed the contact list's end.
    pub closed spec fn wf(&self) -> bool {
        &&& self.table.wf()
        &&& self.polled <= self.contacts@.len()
        &&& (self.phase is Polling ==> self.polled < self.contacts@.len())
        &&& (self.phase is AwaitStart || self.phase is Collecting ==> self.polled == 0)
    }

    /// A machine awaiting the first discovery reply. The caller sends the
    /// list-AORs command and feeds every classified message to `on_message`.
    pub fn new() -> (b: Bootstrap)
        ensures
            b.wf(),
            b.model() == (BootModel {
                phase: Phase::AwaitStart,
                contacts: Seq::<ContactModel>::empty(),
                polled: 0,
                table: Map::<Seq<char>, StatusModel>::empty(),
            }),
    {
        let b = Bootstrap {
            phase: Phase::AwaitStart,
            contacts: Vec::new(),
            polled: 0,
            table: StatusTable::new(),
        };
        proof {
            assert(b.model().contacts =~= Seq::<ContactModel>::empty());
        }
        b
    }

    /// The machine's phase.
    pub fn phase(&self) -> (p: Phase)
        ensures
            p == self.model().phase,
    {
        self.phase
    }

    /// Feed one classified message to the machine; the returned action tells
    /// the caller what to do next.
    pub fn on_message(&mut self, m: Message) -> (a: Action)
        requires
            old(self).wf(),
        ensures
            final(self).wf(),
            final(self).model() == spec_step(old(self).model(), m@),
            a@ == spec_action(old(self).model(), m@),
    {
        match self.phase {
            Phase::AwaitStart => {
                if let Message::Start = m {
                    self.phase = Phase::Collecting;
                    Action::Wait
                } else {
                    self.phase = Phase::Failed;
                    Action::Fail
                }
            },
            Phase::Collecting => {
                match m {
                    Message::Contact { contact, name } => {
                        self.contacts.push(Contact { name, contact });
                        proof {
                            assert(self.model().contacts =~= old(self).model().contacts.push(
                                self.contacts@.last()@,
                            ));
                        }
                        Action::Wait
                    },
                    Message::Complete => {
                        if self.contacts.len() == 0 {
                            self.phase = Phase::Live;
                            Action::Done
                        } else {
                            self.phase = Phase::Polling;
                            let q = self.contacts[0].name.clone();
                            Action::Query(q)
                        }
                    },
                    _ => Action::Wait,
                }
            },
            Phase::Polling => {
                if let Message::Sip(_, st) = m {
                    let len = self.contacts.len();
                    let name = self.contacts[self.polled].name.clone();
                    self.table.insert(name, st);
                    self.polled = self.polled + 1;
                    if self.polled == len {
                        self.phase = Phase::Live;
                        Action::Done
                    } else {
                        let q = self.contacts[self.polled].name.clone();
                        Action::Query(q)
                    }
                } else {
                    self.phase = Phase::Failed;
                    Action::Fail
                }
            },
            Phase::Live => Action::Wait,
            Phase::Failed => Action::Fail,
        }
    }

    /// Hand the populated table over for the live phase.
    pub fn into_table(self) -> (t: StatusTable)
        requires
            self.wf(),
        ensures
            t.wf(),
            t.as_map() == self.model().table,
    {
        self.table
    }
}

/// The machine after a whole sequence of messages, first message first.
pub open spec fn spec_run(b: BootModel, ms: Seq<MessageModel>) -> BootModel
    decreases ms.len(),
{
    if ms.len() == 0 {
        b
    } else {
        spec_run(spec_step(b, ms[0]), ms.drop_first())
    }
}

/// The contact payloads of a message sequence, in receipt order.
pub open spec fn contact_payloads(ms: Seq<MessageModel>) -> Seq<ContactModel>
    decreases ms.len(),
{
    if ms.len() == 0 {
        Seq::empty()
    } else {
        match ms[0] {
            MessageModel::Contact { name, contact } => seq![ContactModel { name, contact }]
                + contact_payloads(ms.drop_first()),
            _ => contact_payloads(ms.drop_first()),
        }
    }
}

/// Running one more message equals stepping once after the run.
pub proof fn lemma_spec_run_snoc(b: BootModel, ms: Seq<MessageModel>, m: MessageModel)
    ensures
        spec_run(b, ms.push(m)) == spec_step(spec_run(b, ms), m),
    decreases ms.len(),
{
    if ms.len() == 0 {
        assert(ms.push(m)[0] == m);
        assert(ms.push(m).drop_first() =~= Seq::<MessageModel>::empty());
        assert(spec_run(b, ms.push(m)) == spec_run(spec_step(b, m), ms.push(m).drop_first()));
        assert(spec_run(spec_step(b, m), ms.push(m).drop_first()) == spec_step(b, m));
        assert(spec_run(b, ms) == b);
    } else {
        assert(ms.push(m)[0] == ms[0]);
        assert(ms.push(m).drop_first() =~= ms.drop_first().push(m));
        lemma_spec_run_snoc(spec_step(b, ms[0]), ms.drop_first(), m);
        assert(spec_run(b, ms.push(m)) == spec_run(spec_step(b, ms[0]), ms.push(m).drop_first()));
        assert(spec_run(spec_step(b, ms[0]), ms.drop_first().push(m)) == spec_step(
            spec_run(spec_step(b, ms[0]), ms.drop_first()),
            m,
        ));
        assert(spec_run(b, ms) == spec_run(spec_step(b, ms[0]), ms.drop_first()));
    }
}

/// While collecting, a message sequence without the completion marker leaves
/// the machine collecting and appends exactly the sequence's contact
/// payloads, in receipt order; interleaved messages of other kinds change
/// nothing.
pub proof fn law_discovery_order(b: BootModel, ms: Seq<MessageModel>)
    requires
        b.phase is Collecting,
        forall|i: int| 0 <= i < ms.len() ==> !((#[trigger] ms[i]) is Complete),
    ensures
        spec_run(b, ms).phase is Collecting,
        spec_run(b, ms).contacts == b.contacts + contact_payloads(ms),
        spec_run(b, ms).polled == b.polled,
        spec_run(b, ms).table == b.table,
    decreases ms.len(),
{
    if ms.len() == 0 {
        assert(b.contacts + contact_payloads(ms) =~= b.contacts);
    } else {
        let b1 = spec_step(b, ms[0]);
        assert(!(ms[0] is Complete));
        assert(forall|i: int|
            0 <= i < ms.drop_first().len() ==> !((#[trigger] ms.drop_first()[i]) is Complete));
        law_discovery_order(b1, ms.drop_first());
        assert(b1.contacts + contact_payloads(ms.drop_first()) =~= b.contacts + contact_payloads(
            ms,
        )) by {
            match ms[0] {
                MessageModel::Contact { name, contact } => {
                    assert(b1.contacts == b.contacts.push(ContactModel { name, contact }));
                    assert(contact_payloads(ms) == seq![ContactModel { name, contact }]
                        + contact_payloads(ms.drop_first()));
                },
                _ => {
                },
            }
        }
    }
}

/// A discovery exchange of any messages without the completion marker,
/// followed by the marker itself, hands the polling phase exactly the
/// contact payloads received, in receipt order; when none arrived the
/// machine goes straight to the live phase.
pub proof fn law_discovery_complete(b: BootModel, ms: Seq<MessageModel>)
    requires
        b.phase is Collecting,
        b.contacts == Seq::<ContactModel>::empty(),
        forall|i: int| 0 <= i < ms.len() ==> !((#[trigger] ms[i]) is Complete),
    ensures
        spec_run(b, ms.push(MessageModel::Complete)).contacts == contact_payloads(ms),
        contact_payloads(ms).len() > 0 ==> spec_run(b, ms.push(MessageModel::Complete)).phase
            is Polling,
        contact_payloads(ms).len() == 0 ==> spec_run(b, ms.push(MessageModel::Complete)).phase
            is Live,
{
    lemma_spec_run_snoc(b, ms, MessageModel::Complete);
    law_discovery_order(b, ms);
    assert(spec_run(b, ms).contacts =~= contact_payloads(ms));
}

/// Apply one live-phase message to the table: a status update replaces the
/// status of its extension when that extension is a key, and any other
/// message leaves the table untouched. No key is ever added in the live phase.
pub fn apply_live(table: &mut StatusTable, m: Message)
    requires
        old(table).wf(),
    ensures
        final(table).wf(),
        final(table)@.len() == old(table)@.len(),
        final(table).as_map() == (match m@ {
            MessageModel::Sip { exten, code, text } => spec_live_update(
                old(table).as_map(),
                exten,
                StatusModel { code, text },
            ),
            _ => old(table).as_map(),
        }),
{
    if let Message::Sip(exten, st) = m {
        table.update_if_present(exten.as_str(), st);
    }
}

} // verus!
