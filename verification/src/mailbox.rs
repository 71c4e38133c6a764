//! Mailboxes and the post office that routes signals between them.
//!
//! A mailbox is a FIFO queue of signals that belongs to a route group (the
//! mailboxes of one process). The post office holds every mailbox of the
//! runtime, by index; an index is never reused, so a route to a closed mailbox
//! stays a route to a closed mailbox.

use std::collections::VecDeque;
use vstd::prelude::*;
use crate::capability::{Capability, Route};

verus! {

/// What a mailbox queues.
#[derive(Debug)]
pub enum Signal {
    /// A payload with the capabilities that travel with it.
    Message { payload: Vec<u8>, caps: Vec<Capability> },
    /// The route of a monitored capability was destroyed.
    Down { subject: Capability },
}

/// A signal as a plain value.
pub enum SignalModel {
    Message { payload: Seq<u8>, caps: Seq<Capability> },
    Down { subject: Capability },
}

impl View for Signal {
    type V = SignalModel;

    open spec fn view(&self) -> SignalModel {
        match self {
            Signal::Message { payload, caps } => SignalModel::Message {
                payload: payload@,
                caps: caps@,
            },
            Signal::Down { subject } => SignalModel::Down { subject: *subject },
        }
    }
}

/// A one-shot watch: `watcher` is told when the route of `subject` is
/// destroyed.
#[derive(Clone, Copy, Debug, PartialEq, Eq, Structural)]
pub struct Watch {
    /// The mailbox that gets the `Down` signal.
    pub watcher: usize,
    /// The capability that was monitored.
    pub subject: Capability,
}

/// A mailbox as a plain value.
pub struct MailboxModel {
    /// The route group that the mailbox belongs to.
    pub group: usize,
    /// Whether the mailbox still accepts signals.
    pub open: bool,
    /// The signals waiting, oldest first.
    pub queue: Seq<SignalModel>,
    /// The watches installed on this mailbox's route, oldest first.
    pub watchers: Seq<Watch>,
}

/// The views of a sequence of signals.
pub open spec fn signal_views(queue: Seq<Signal>) -> Seq<SignalModel> {
    Seq::new(queue.len(), |i: int| queue[i]@)
}

struct Mailbox {
    group: usize,
    open: bool,
    queue: VecDeque<Signal>,
    watchers: Vec<Watch>,
}

impl View for Mailbox {
    type V = MailboxModel;

    closed spec fn view(&self) -> MailboxModel {
        MailboxModel {
            group: self.group,
            open: self.open,
            queue: signal_views(self.queue@),
            watchers: self.watchers@,
        }
    }
}

/// A mailbox that was just created for `group`.
pub open spec fn fresh_mailbox(group: usize) -> MailboxModel {
    MailboxModel { group, open: true, queue: Seq::empty(), watchers: Seq::empty() }
}

/// A mailbox of `group` after it was closed: drained, with no watch left.
pub open spec fn closed_mailbox(group: usize) -> MailboxModel {
    MailboxModel { group, open: false, queue: Seq::empty(), watchers: Seq::empty() }
}

/// Whether `mailbox` names an open mailbox of `post`.
pub open spec fn is_open(post: Seq<MailboxModel>, mailbox: int) -> bool {
    0 <= mailbox < post.len() && post[mailbox].open
}

/// The post office after `signal` was sent to `mailbox`: appended to the queue
/// of an open mailbox, dropped otherwise.
pub open spec fn deliver_of(post: Seq<MailboxModel>, mailbox: int, signal: SignalModel) -> Seq<
    MailboxModel,
> {
    if is_open(post, mailbox) {
        post.update(
            mailbox,
            MailboxModel { queue: post[mailbox].queue.push(signal), ..post[mailbox] },
        )
    } else {
        post
    }
}

/// The post office after the oldest signal of `mailbox` was taken.
pub open spec fn take_of(post: Seq<MailboxModel>, mailbox: int) -> Seq<MailboxModel> {
    if 0 <= mailbox < post.len() && post[mailbox].queue.len() > 0 {
        post.update(
            mailbox,
            MailboxModel {
                queue: post[mailbox].queue.subrange(1, post[mailbox].queue.len() as int),
                ..post[mailbox]
            },
        )
    } else {
        post
    }
}

/// The `Down` signals that firing `watches`, oldest first, sends to `mailbox`.
pub open spec fn downs_for(watches: Seq<Watch>, mailbox: int) -> Seq<SignalModel>
    decreases watches.len(),
{
    if watches.len() == 0 {
        Seq::empty()
    } else {
        let rest = downs_for(watches.drop_first(), mailbox);
        if watches[0].watcher == mailbox {
            seq![SignalModel::Down { subject: watches[0].subject }] + rest
        } else {
            rest
        }
    }
}

/// The post office after each watch of `watches`, oldest first, was fired: a
/// `Down` with the watch's subject is sent to the watch's mailbox.
pub open spec fn fire_of(post: Seq<MailboxModel>, watches: Seq<Watch>) -> Seq<MailboxModel>
    decreases watches.len(),
{
    if watches.len() == 0 {
        post
    } else {
        fire_of(
            deliver_of(
                post,
                watches[0].watcher as int,
                SignalModel::Down { subject: watches[0].subject },
            ),
            watches.drop_first(),
        )
    }
}

/// The post office after a watch on `subject` was asked for on behalf of
/// mailbox `watcher`. On an open mailbox the watch is installed, once for each
/// pair of watcher and subject. On a route that is closed the `Down` is sent
/// at once. A subject that is not a local route leaves the post office as it
/// was.
pub open spec fn watch_of(post: Seq<MailboxModel>, subject: Capability, watcher: usize) -> Seq<
    MailboxModel,
> {
    match subject.route {
        Route::Local { mailbox } => {
            let watch = Watch { watcher, subject };
            if is_open(post, mailbox as int) {
                if post[mailbox as int].watchers.contains(watch) {
                    post
                } else {
                    post.update(
                        mailbox as int,
                        MailboxModel {
                            watchers: post[mailbox as int].watchers.push(watch),
                            ..post[mailbox as int]
                        },
                    )
                }
            } else {
                deliver_of(post, watcher as int, SignalModel::Down { subject })
            }
        },
        Route::Remote { .. } => post,
    }
}

/// The post office after `mailbox` was closed: it is drained, takes no more
/// signals, and each watch on it fires once.
pub open spec fn close_of(post: Seq<MailboxModel>, mailbox: int) -> Seq<MailboxModel> {
    if 0 <= mailbox < post.len() {
        fire_of(
            post.update(mailbox, closed_mailbox(post[mailbox].group)),
            post[mailbox].watchers,
        )
    } else {
        post
    }
}

/// The post office with every mailbox of `group` closed and no watch fired
/// yet.
pub open spec fn close_all_of(post: Seq<MailboxModel>, group: usize) -> Seq<MailboxModel> {
    Seq::new(
        post.len(),
        |i: int|
            if post[i].group == group {
                closed_mailbox(group)
            } else {
                post[i]
            },
    )
}

/// The watches on the first `upto` mailboxes that belong to `group`, by
/// mailbox index and then oldest first.
pub open spec fn group_watches(post: Seq<MailboxModel>, group: usize, upto: int) -> Seq<Watch>
    decreases upto,
{
    if upto <= 0 {
        Seq::empty()
    } else {
        let before = group_watches(post, group, upto - 1);
        if upto <= post.len() && post[upto - 1].group == group {
            before + post[upto - 1].watchers
        } else {
            before
        }
    }
}

/// The post office after the route group `group` was killed: all its
/// mailboxes are closed first, then every watch that was installed on one of
/// them fires once.
pub open spec fn kill_of(post: Seq<MailboxModel>, group: usize) -> Seq<MailboxModel> {
    fire_of(close_all_of(post, group), group_watches(post, group, post.len() as int))
}

/// The invariant of one mailbox: a closed mailbox holds nothing, every watch
/// on it is for a capability to this very mailbox, and no watch occurs twice.
pub open spec fn mailbox_wf(post: Seq<MailboxModel>, mailbox: int) -> bool {
    let m = post[mailbox];
    &&& !m.open ==> m.queue.len() == 0 && m.watchers.len() == 0
    &&& forall|k: int|
        0 <= k < m.watchers.len() ==> (#[trigger] m.watchers[k]).subject.route == (Route::Local {
            mailbox: mailbox as usize,
        })
    &&& m.watchers.no_duplicates()
}

/// The invariant of the post office: that of each mailbox, and an index that
/// fits the machine.
pub open spec fn post_wf(post: Seq<MailboxModel>) -> bool {
    &&& post.len() <= usize::MAX
    &&& forall|i: int| 0 <= i < post.len() ==> mailbox_wf(post, i)
}

/// The mailboxes of a runtime and the signals in flight between them.
pub struct PostOffice {
    mailboxes: Vec<Mailbox>,
}

impl View for PostOffice {
    type V = Seq<MailboxModel>;

    closed spec fn view(&self) -> Seq<MailboxModel> {
        Seq::new(self.mailboxes@.len(), |i: int| self.mailboxes@[i]@)
    }
}

impl PostOffice {
    /// A post office without mailboxes.
    pub fn new() -> (post: PostOffice)
        ensures
            post@ == Seq::<MailboxModel>::empty(),
    {
        let post = PostOffice { mailboxes: Vec::new() };
        assert(post@ =~= Seq::<MailboxModel>::empty());
        post
    }

    /// The number of mailboxes ever created.
    pub fn len(&self) -> (n: usize)
        ensures
            n == self@.len(),
    {
        self.mailboxes.len()
    }

    /// Creates an open, empty mailbox in `group` and gives its index.
    pub fn create(&mut self, group: usize) -> (mailbox: usize)
        ensures
            mailbox == old(self)@.len(),
            final(self)@ == old(self)@.push(fresh_mailbox(group)),
            final(self)@.len() <= usize::MAX,
    {
        let mailbox = self.mailboxes.len();
        let created = Mailbox { group, open: true, queue: VecDeque::new(), watchers: Vec::new() };
        assert(created@.queue =~= Seq::<SignalModel>::empty());
        self.mailboxes.push(created);
        assert(self@ =~= old(self)@.push(fresh_mailbox(group)));
        assert(self.mailboxes.len() == self@.len());
        mailbox
    }

    /// Sends `signal` to `mailbox`. A signal to a mailbox that is closed, or
    /// that never existed, is dropped; the result says whether it was queued.
    pub fn deliver(&mut self, mailbox: usize, signal: Signal) -> (queued: bool)
        ensures
            queued == is_open(old(self)@, mailbox as int),
            final(self)@ == deliver_of(old(self)@, mailbox as int, signal@),
    {
        if mailbox < self.mailboxes.len() && self.mailboxes[mailbox].open {
            let ghost before = self.mailboxes[mailbox as int].queue@;
            self.mailboxes[mailbox].queue.push_back(signal);
            proof {
                assert(signal_views(before.push(signal)) =~= signal_views(before).push(signal@));
                assert(self@ =~= deliver_of(old(self)@, mailbox as int, signal@));
            }
            true
        } else {
            false
        }
    }

    /// Takes the oldest signal of `mailbox`, if one is waiting.
    pub fn take(&mut self, mailbox: usize) -> (signal: Option<Signal>)
        ensures
            signal is Some <==> mailbox < old(self)@.len() && old(self)@[mailbox as int].queue.len()
                > 0,
            signal matches Some(s) ==> s@ == old(self)@[mailbox as int].queue[0],
            final(self)@ == take_of(old(self)@, mailbox as int),
    {
        if mailbox < self.mailboxes.len() {
            let ghost before = self.mailboxes[mailbox as int].queue@;
            let signal = self.mailboxes[mailbox].queue.pop_front();
            proof {
                if signal is Some {
                    assert(signal_views(before.subrange(1, before.len() as int)) =~= signal_views(
                        before,
                    ).subrange(1, before.len() as int));
                }
                assert(self@ =~= take_of(old(self)@, mailbox as int));
            }
            signal
        } else {
            None
        }
    }

    /// Whether `mailbox` is open.
    pub fn is_open(&self, mailbox: usize) -> (r: bool)
        ensures
            r == is_open(self@, mailbox as int),
    {
        mailbox < self.mailboxes.len() && self.mailboxes[mailbox].open
    }

    /// The route group of `mailbox`, if it was ever created.
    pub fn group_of(&self, mailbox: usize) -> (r: Option<usize>)
        ensures
            r == (if mailbox < self@.len() {
                Some(self@[mailbox as int].group)
            } else {
                None
            }),
    {
        if mailbox < self.mailboxes.len() {
            Some(self.mailboxes[mailbox].group)
        } else {
            None
        }
    }

    /// The number of signals waiting in `mailbox`; zero where there is no such
    /// mailbox.
    pub fn pending(&self, mailbox: usize) -> (n: usize)
        ensures
            n == (if mailbox < self@.len() {
                self@[mailbox as int].queue.len()
            } else {
                0
            }),
    {
        if mailbox < self.mailboxes.len() {
            self.mailboxes[mailbox].queue.len()
        } else {
            0
        }
    }

    /// Installs a watch on the route of `subject` for the mailbox `watcher`;
    /// see [`watch_of`]. The result says whether the subject is a local route.
    pub fn watch(&mut self, subject: Capability, watcher: usize) -> (local: bool)
        ensures
            local == (subject.route is Local),
            final(self)@ == watch_of(old(self)@, subject, watcher),
    {
        match subject.route {
            Route::Remote { .. } => false,
            Route::Local { mailbox } => {
                let watch = Watch { watcher, subject };
                if mailbox < self.mailboxes.len() && self.mailboxes[mailbox].open {
                    if !contains_watch(&self.mailboxes[mailbox].watchers, watch) {
                        self.mailboxes[mailbox].watchers.push(watch);
                        assert(self@ =~= watch_of(old(self)@, subject, watcher));
                    }
                } else {
                    self.deliver(watcher, Signal::Down { subject });
                }
                true
            },
        }
    }

    /// Fires each watch of `watches`, oldest first: a `Down` with the watch's
    /// subject is sent to the watch's mailbox.
    pub fn fire(&mut self, watches: &Vec<Watch>)
        ensures
            final(self)@ == fire_of(old(self)@, watches@),
    {
        let mut i: usize = 0;
        assert(watches@.subrange(0, watches@.len() as int) =~= watches@);
        while i < watches.len()
            invariant
                i <= watches@.len(),
                fire_of(self@, watches@.subrange(i as int, watches@.len() as int)) == fire_of(
                    old(self)@,
                    watches@,
                ),
            decreases watches@.len() - i,
        {
            let ghost rest = watches@.subrange(i as int, watches@.len() as int);
            let watch = watches[i];
            proof {
                assert(rest[0] == watch);
                assert(rest.drop_first() =~= watches@.subrange(i + 1, watches@.len() as int));
            }
            self.deliver(watch.watcher, Signal::Down { subject: watch.subject });
            i = i + 1;
        }
        proof {
            assert(watches@.subrange(i as int, watches@.len() as int) =~= Seq::<Watch>::empty());
        }
    }

    /// Closes `mailbox`: it is drained, takes no more signals, and every watch
    /// on it fires once. Closing a closed mailbox changes nothing.
    pub fn close(&mut self, mailbox: usize)
        ensures
            final(self)@ == close_of(old(self)@, mailbox as int),
    {
        if mailbox < self.mailboxes.len() {
            let mut fired: Vec<Watch> = Vec::new();
            std::mem::swap(&mut fired, &mut self.mailboxes[mailbox].watchers);
            self.mailboxes[mailbox].open = false;
            self.mailboxes[mailbox].queue.clear();
            proof {
                assert(signal_views(Seq::<Signal>::empty()) =~= Seq::<SignalModel>::empty());
                assert(self@ =~= old(self)@.update(
                    mailbox as int,
                    closed_mailbox(old(self)@[mailbox as int].group),
                ));
            }
            self.fire(&fired);
        }
    }

    /// Kills the route group `group`: every mailbox of the group is closed and
    /// drained, then every watch that was installed on one of them fires once.
    pub fn kill_group(&mut self, group: usize)
        ensures
            final(self)@ == kill_of(old(self)@, group),
    {
        let mut fired: Vec<Watch> = Vec::new();
        let mut i: usize = 0;
        let n = self.mailboxes.len();
        while i < n
            invariant
                i <= n,
                n == self.mailboxes@.len(),
                self@.len() == old(self)@.len(),
                n == old(self)@.len(),
                fired@ == group_watches(old(self)@, group, i as int),
                forall|j: int| 0 <= j < i ==> self@[j] == #[trigger] close_all_of(old(self)@, group)[j],
                forall|j: int| i <= j < n ==> #[trigger] self@[j] == old(self)@[j],
            decreases n - i,
        {
            let ghost before = self@;
            let ghost fired_before = fired@;
            assert(before[i as int] == old(self)@[i as int]);
            if self.mailboxes[i].group == group {
                let mut taken: Vec<Watch> = Vec::new();
                std::mem::swap(&mut taken, &mut self.mailboxes[i].watchers);
                self.mailboxes[i].open = false;
                self.mailboxes[i].queue.clear();
                fired.append(&mut taken);
                proof {
                    assert(signal_views(Seq::<Signal>::empty()) =~= Seq::<SignalModel>::empty());
                    assert(self@[i as int] == closed_mailbox(group));
                    assert forall|j: int| i < j < n implies #[trigger] self@[j] == old(self)@[j] by {
                        assert(self@[j] == before[j]);
                    }
                    assert forall|j: int| 0 <= j < i implies self@[j] == #[trigger] close_all_of(
                        old(self)@,
                        group,
                    )[j] by {
                        assert(self@[j] == before[j]);
                    }
                    assert(fired@ == fired_before + old(self)@[i as int].watchers);
                }
            }
            proof {
                assert(self@[i as int] == close_all_of(old(self)@, group)[i as int]);
                assert(fired@ == group_watches(old(self)@, group, i + 1));
            }
            i = i + 1;
        }
        proof {
            assert(self@ =~= close_all_of(old(self)@, group));
        }
        self.fire(&fired);
    }
}

/// Whether `watch` occurs in `watches`.
fn contains_watch(watches: &Vec<Watch>, watch: Watch) -> (r: bool)
    ensures
        r == watches@.contains(watch),
{
    let mut i: usize = 0;
    while i < watches.len()
        invariant
            i <= watches@.len(),
            forall|k: int| 0 <= k < i ==> watches@[k] != watch,
        decreases watches@.len() - i,
    {
        if watches[i] == watch {
            return true;
        }
        i = i + 1;
    }
    false
}

} // verus!
