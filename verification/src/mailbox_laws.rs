//! What holds of the post office across operations: the invariant is kept,
//! signals arrive in the order sent, and a kill fires each monitor once.

use vstd::prelude::*;
use crate::capability::{Capability, Route};
use crate::mailbox::{
    close_all_of, close_of, closed_mailbox, deliver_of, downs_for, fire_of, fresh_mailbox,
    group_watches, is_open, kill_of, mailbox_wf, post_wf, take_of, watch_of, MailboxModel,
    SignalModel, Watch,
};

verus! {

/// How often `x` occurs in `s`.
pub open spec fn count_of<A>(s: Seq<A>, x: A) -> nat
    decreases s.len(),
{
    if s.len() == 0 {
        0
    } else {
        (if s[0] == x {
            1nat
        } else {
            0nat
        }) + count_of(s.drop_first(), x)
    }
}

/// Occurrences add up over concatenation.
pub proof fn lemma_count_concat<A>(a: Seq<A>, b: Seq<A>, x: A)
    ensures
        count_of(a + b, x) == count_of(a, x) + count_of(b, x),
    decreases a.len(),
{
    if a.len() == 0 {
        assert(a + b =~= b);
    } else {
        assert((a + b).drop_first() =~= a.drop_first() + b);
        lemma_count_concat(a.drop_first(), b, x);
    }
}

/// What does not occur is counted zero times, and conversely.
pub proof fn lemma_count_zero<A>(s: Seq<A>, x: A)
    ensures
        count_of(s, x) == 0 <==> !s.contains(x),
    decreases s.len(),
{
    if s.len() > 0 {
        lemma_count_zero(s.drop_first(), x);
        if s.drop_first().contains(x) {
            let k = choose|k: int| 0 <= k < s.drop_first().len() && s.drop_first()[k] == x;
            assert(s[k + 1] == x);
        }
        if s.contains(x) && s[0] != x {
            let k = choose|k: int| 0 <= k < s.len() && s[k] == x;
            assert(s.drop_first()[k - 1] == x);
        }
    }
}

/// In a sequence without duplicates, what occurs is counted once.
pub proof fn lemma_count_no_duplicates<A>(s: Seq<A>, x: A)
    requires
        s.no_duplicates(),
        s.contains(x),
    ensures
        count_of(s, x) == 1,
    decreases s.len(),
{
    let rest = s.drop_first();
    assert(rest.no_duplicates()) by {
        assert forall|i: int, j: int| 0 <= i < rest.len() && 0 <= j < rest.len() && i != j implies rest[i]
            != rest[j] by {
            assert(rest[i] == s[i + 1] && rest[j] == s[j + 1]);
        }
    }
    if s[0] == x {
        assert(!rest.contains(x)) by {
            if rest.contains(x) {
                let k = choose|k: int| 0 <= k < rest.len() && rest[k] == x;
                assert(s[k + 1] == x);
            }
        }
        lemma_count_zero(rest, x);
    } else {
        let k = choose|k: int| 0 <= k < s.len() && s[k] == x;
        assert(rest[k - 1] == x);
        lemma_count_no_duplicates(rest, x);
    }
}

/// A mailbox after `watches` were fired at the post office: an open mailbox
/// `index` has the `Down` signals meant for it appended; a closed one is as
/// before.
pub open spec fn fired_mailbox(m: MailboxModel, watches: Seq<Watch>, index: int) -> MailboxModel {
    if m.open {
        MailboxModel { queue: m.queue + downs_for(watches, index), ..m }
    } else {
        m
    }
}

/// Firing watches changes nothing but the queues of open mailboxes, and each
/// of them gets exactly the `Down` signals meant for it, in order.
pub proof fn lemma_fire_of(post: Seq<MailboxModel>, watches: Seq<Watch>)
    requires
        post.len() <= usize::MAX,
    ensures
        fire_of(post, watches) == Seq::new(
            post.len(),
            |j: int| fired_mailbox(post[j], watches, j),
        ),
    decreases watches.len(),
{
    let expected = Seq::new(post.len(), |j: int| fired_mailbox(post[j], watches, j));
    if watches.len() == 0 {
        assert forall|j: int| 0 <= j < post.len() implies post[j] == expected[j] by {
            assert(post[j].queue + Seq::<SignalModel>::empty() =~= post[j].queue);
        }
        assert(post =~= expected);
    } else {
        let down = SignalModel::Down { subject: watches[0].subject };
        let target = watches[0].watcher as int;
        let next = deliver_of(post, target, down);
        let rest = watches.drop_first();
        lemma_fire_of(next, rest);
        let result = fire_of(next, rest);
        assert forall|j: int| 0 <= j < post.len() implies result[j] == expected[j] by {
            assert(result[j] == fired_mailbox(next[j], rest, j));
            if post[j].open {
                if j == target {
                    assert(post[j].queue.push(down) + downs_for(rest, j) =~= post[j].queue + (
                    seq![down] + downs_for(rest, j)));
                }
            }
        }
        assert(result =~= expected);
    }
}

/// A new mailbox keeps the invariant.
pub proof fn lemma_create_keeps_wf(post: Seq<MailboxModel>, group: usize)
    requires
        post_wf(post),
        post.len() < usize::MAX,
    ensures
        post_wf(post.push(fresh_mailbox(group))),
{
    let after = post.push(fresh_mailbox(group));
    assert forall|i: int| 0 <= i < after.len() implies mailbox_wf(after, i) by {
        if i < post.len() {
            assert(mailbox_wf(post, i));
            assert(after[i] == post[i]);
        }
    }
}

/// Sending a signal keeps the invariant.
pub proof fn lemma_deliver_keeps_wf(post: Seq<MailboxModel>, mailbox: int, signal: SignalModel)
    requires
        post_wf(post),
    ensures
        post_wf(deliver_of(post, mailbox, signal)),
{
    let after = deliver_of(post, mailbox, signal);
    assert forall|i: int| 0 <= i < after.len() implies mailbox_wf(after, i) by {
        assert(mailbox_wf(post, i));
    }
}

/// A signal sent to a route that is closed, or that never existed, is dropped:
/// nothing changes anywhere.
pub proof fn lemma_closed_route_drops(post: Seq<MailboxModel>, mailbox: int, signal: SignalModel)
    requires
        !is_open(post, mailbox),
    ensures
        deliver_of(post, mailbox, signal) == post,
{
}

/// Taking a signal keeps the invariant.
pub proof fn lemma_take_keeps_wf(post: Seq<MailboxModel>, mailbox: int)
    requires
        post_wf(post),
    ensures
        post_wf(take_of(post, mailbox)),
{
    let after = take_of(post, mailbox);
    assert forall|i: int| 0 <= i < after.len() implies mailbox_wf(after, i) by {
        assert(mailbox_wf(post, i));
    }
}

/// Installing a watch keeps the invariant.
pub proof fn lemma_watch_keeps_wf(post: Seq<MailboxModel>, subject: Capability, watcher: usize)
    requires
        post_wf(post),
    ensures
        post_wf(watch_of(post, subject, watcher)),
{
    let after = watch_of(post, subject, watcher);
    match subject.route {
        Route::Remote { .. } => {},
        Route::Local { mailbox } => {
            let watch = Watch { watcher, subject };
            if is_open(post, mailbox as int) {
                assert forall|i: int| 0 <= i < after.len() implies mailbox_wf(after, i) by {
                    assert(mailbox_wf(post, i));
                    if i == mailbox && !post[i].watchers.contains(watch) {
                        let ws = post[i].watchers;
                        assert(after[i].watchers == ws.push(watch));
                        assert forall|a: int, b: int|
                            0 <= a < ws.push(watch).len() && 0 <= b < ws.push(watch).len() && a
                                != b implies ws.push(watch)[a] != ws.push(watch)[b] by {
                            if a < ws.len() {
                                assert(ws.contains(ws[a]));
                            }
                            if b < ws.len() {
                                assert(ws.contains(ws[b]));
                            }
                        }
                    }
                }
            } else {
                lemma_deliver_keeps_wf(post, watcher as int, SignalModel::Down { subject });
            }
        },
    }
}

/// Firing watches keeps the invariant.
pub proof fn lemma_fire_keeps_wf(post: Seq<MailboxModel>, watches: Seq<Watch>)
    requires
        post_wf(post),
    ensures
        post_wf(fire_of(post, watches)),
{
    lemma_fire_of(post, watches);
    let after = fire_of(post, watches);
    assert forall|i: int| 0 <= i < after.len() implies mailbox_wf(after, i) by {
        assert(mailbox_wf(post, i));
        assert(after[i] == fired_mailbox(post[i], watches, i));
    }
}

/// Closing a mailbox keeps the invariant.
pub proof fn lemma_close_keeps_wf(post: Seq<MailboxModel>, mailbox: int)
    requires
        post_wf(post),
    ensures
        post_wf(close_of(post, mailbox)),
{
    if 0 <= mailbox < post.len() {
        let closed = post.update(mailbox, closed_mailbox(post[mailbox].group));
        assert forall|i: int| 0 <= i < closed.len() implies mailbox_wf(closed, i) by {
            assert(mailbox_wf(post, i));
        }
        lemma_fire_keeps_wf(closed, post[mailbox].watchers);
    }
}

/// Killing a route group keeps the invariant.
pub proof fn lemma_kill_keeps_wf(post: Seq<MailboxModel>, group: usize)
    requires
        post_wf(post),
    ensures
        post_wf(kill_of(post, group)),
{
    let closed = close_all_of(post, group);
    assert forall|i: int| 0 <= i < closed.len() implies mailbox_wf(closed, i) by {
        assert(mailbox_wf(post, i));
    }
    lemma_fire_keeps_wf(closed, group_watches(post, group, post.len() as int));
}

/// The post office after every signal of `signals`, first to last, was sent
/// to `mailbox`.
pub open spec fn deliver_all_of(post: Seq<MailboxModel>, mailbox: int, signals: Seq<SignalModel>)
    -> Seq<MailboxModel>
    decreases signals.len(),
{
    if signals.len() == 0 {
        post
    } else {
        deliver_all_of(deliver_of(post, mailbox, signals[0]), mailbox, signals.drop_first())
    }
}

/// The post office after `count` signals were taken from `mailbox`.
pub open spec fn take_n_of(post: Seq<MailboxModel>, mailbox: int, count: nat) -> Seq<MailboxModel>
    decreases count,
{
    if count == 0 {
        post
    } else {
        take_n_of(take_of(post, mailbox), mailbox, (count - 1) as nat)
    }
}

/// Signals sent to an open mailbox are appended to its queue in the order
/// sent, and nothing else changes.
pub proof fn lemma_deliver_all(post: Seq<MailboxModel>, mailbox: int, signals: Seq<SignalModel>)
    requires
        is_open(post, mailbox),
    ensures
        deliver_all_of(post, mailbox, signals) == post.update(
            mailbox,
            MailboxModel { queue: post[mailbox].queue + signals, ..post[mailbox] },
        ),
    decreases signals.len(),
{
    let expected = post.update(
        mailbox,
        MailboxModel { queue: post[mailbox].queue + signals, ..post[mailbox] },
    );
    if signals.len() == 0 {
        assert(post[mailbox].queue + signals =~= post[mailbox].queue);
        assert(post =~= expected);
    } else {
        let next = deliver_of(post, mailbox, signals[0]);
        lemma_deliver_all(next, mailbox, signals.drop_first());
        assert(post[mailbox].queue.push(signals[0]) + signals.drop_first() =~= post[mailbox].queue
            + signals);
        assert(deliver_all_of(post, mailbox, signals) =~= expected);
    }
}

/// Taking `count` signals from a mailbox that holds at least as many removes
/// the `count` oldest and nothing else.
pub proof fn lemma_take_n(post: Seq<MailboxModel>, mailbox: int, count: nat)
    requires
        0 <= mailbox < post.len(),
        count <= post[mailbox].queue.len(),
    ensures
        take_n_of(post, mailbox, count) == post.update(
            mailbox,
            MailboxModel {
                queue: post[mailbox].queue.subrange(count as int, post[mailbox].queue.len() as int),
                ..post[mailbox]
            },
        ),
    decreases count,
{
    let queue = post[mailbox].queue;
    let expected = post.update(
        mailbox,
        MailboxModel { queue: queue.subrange(count as int, queue.len() as int), ..post[mailbox] },
    );
    if count == 0 {
        assert(queue.subrange(0, queue.len() as int) =~= queue);
        assert(post =~= expected);
    } else {
        let next = take_of(post, mailbox);
        lemma_take_n(next, mailbox, (count - 1) as nat);
        assert(queue.subrange(1, queue.len() as int).subrange(
            count - 1,
            queue.len() as int - 1,
        ) =~= queue.subrange(count as int, queue.len() as int));
        assert(take_n_of(post, mailbox, count) =~= expected);
    }
}

/// Messages are received in the order sent. Where `signals` are sent to an
/// open mailbox one after the other, the `k`-th of them is what a receiver takes
/// after it took everything that waited before and the first `k` of them.
pub proof fn lemma_send_order_is_receive_order(
    post: Seq<MailboxModel>,
    mailbox: int,
    signals: Seq<SignalModel>,
    k: int,
)
    requires
        is_open(post, mailbox),
        0 <= k < signals.len(),
    ensures
        ({
            let sent = deliver_all_of(post, mailbox, signals);
            let waiting = post[mailbox].queue.len();
            let taken = take_n_of(sent, mailbox, (waiting + k) as nat);
            &&& sent[mailbox].queue == post[mailbox].queue + signals
            &&& taken[mailbox].queue.len() == signals.len() - k
            &&& taken[mailbox].queue[0] == signals[k]
        }),
{
    lemma_deliver_all(post, mailbox, signals);
    let sent = deliver_all_of(post, mailbox, signals);
    let waiting = post[mailbox].queue.len();
    lemma_take_n(sent, mailbox, (waiting + k) as nat);
}

/// The `Down` signals that firing `watches` sends to a mailbox name a subject
/// as often as the watch of that mailbox on that subject occurs.
pub proof fn lemma_downs_count(watches: Seq<Watch>, watcher: usize, subject: Capability)
    ensures
        count_of(downs_for(watches, watcher as int), SignalModel::Down { subject }) == count_of(
            watches,
            Watch { watcher, subject },
        ),
    decreases watches.len(),
{
    if watches.len() > 0 {
        let rest = watches.drop_first();
        lemma_downs_count(rest, watcher, subject);
        if watches[0].watcher == watcher {
            let first = seq![SignalModel::Down { subject: watches[0].subject }];
            lemma_count_concat(first, downs_for(rest, watcher as int), SignalModel::Down { subject });
            assert(first.drop_first() =~= Seq::<SignalModel>::empty());
            assert(count_of(first.drop_first(), SignalModel::Down { subject }) == 0);
        }
    }
}

/// Among the watches of a route group, a watch on a capability to mailbox `m`
/// occurs as often as among the watches of `m` itself.
pub proof fn lemma_group_watches_count(
    post: Seq<MailboxModel>,
    group: usize,
    upto: int,
    watch: Watch,
    m: usize,
)
    requires
        post_wf(post),
        0 <= upto <= post.len(),
        m < post.len(),
        post[m as int].group == group,
        watch.subject.route == (Route::Local { mailbox: m }),
    ensures
        count_of(group_watches(post, group, upto), watch) == (if m < upto {
            count_of(post[m as int].watchers, watch)
        } else {
            0
        }),
    decreases upto,
{
    if upto > 0 {
        lemma_group_watches_count(post, group, upto - 1, watch, m);
        let before = group_watches(post, group, upto - 1);
        if post[upto - 1].group == group {
            let ws = post[upto - 1].watchers;
            lemma_count_concat(before, ws, watch);
            if upto - 1 != m {
                assert(mailbox_wf(post, upto - 1));
                assert(!ws.contains(watch)) by {
                    if ws.contains(watch) {
                        let k = choose|k: int| 0 <= k < ws.len() && ws[k] == watch;
                        assert(ws[k].subject.route == (Route::Local { mailbox: (upto - 1) as usize }));
                    }
                }
                lemma_count_zero(ws, watch);
            }
        }
    }
}

/// Killing a process fires each monitor exactly once. Where a mailbox that is
/// open and outside the killed group holds a watch on a capability to a
/// mailbox of the group, the kill closes the group's mailboxes and appends to
/// the watcher's queue the `Down` signals meant for it, of which exactly one
/// names that capability.
pub proof fn lemma_kill_fires_each_monitor_once(
    post: Seq<MailboxModel>,
    group: usize,
    watcher: usize,
    subject: Capability,
    m: usize,
)
    requires
        post_wf(post),
        subject.route == (Route::Local { mailbox: m }),
        m < post.len(),
        post[m as int].group == group,
        post[m as int].watchers.contains(Watch { watcher, subject }),
        watcher < post.len(),
        post[watcher as int].open,
        post[watcher as int].group != group,
    ensures
        ({
            let after = kill_of(post, group);
            let downs = downs_for(group_watches(post, group, post.len() as int), watcher as int);
            &&& after.len() == post.len()
            &&& after[m as int] == closed_mailbox(group)
            &&& after[watcher as int].queue == post[watcher as int].queue + downs
            &&& count_of(downs, SignalModel::Down { subject }) == 1
            &&& count_of(after[watcher as int].queue, SignalModel::Down { subject }) == count_of(
                post[watcher as int].queue,
                SignalModel::Down { subject },
            ) + 1
        }),
{
    let closed = close_all_of(post, group);
    let watches = group_watches(post, group, post.len() as int);
    let downs = downs_for(watches, watcher as int);
    let down = SignalModel::Down { subject };
    lemma_fire_of(closed, watches);
    let after = kill_of(post, group);
    assert(after[m as int] == fired_mailbox(closed[m as int], watches, m as int));
    assert(after[watcher as int] == fired_mailbox(closed[watcher as int], watches, watcher as int));
    lemma_downs_count(watches, watcher, subject);
    lemma_group_watches_count(post, group, post.len() as int, Watch { watcher, subject }, m);
    assert(mailbox_wf(post, m as int));
    lemma_count_no_duplicates(post[m as int].watchers, Watch { watcher, subject });
    lemma_count_concat(post[watcher as int].queue, downs, down);
}

/// A kill neither adds nor removes a mailbox.
pub proof fn lemma_kill_len(post: Seq<MailboxModel>, group: usize)
    requires
        post.len() <= usize::MAX,
    ensures
        kill_of(post, group).len() == post.len(),
{
    lemma_fire_of(close_all_of(post, group), group_watches(post, group, post.len() as int));
}

/// After a kill every mailbox of the group is closed and empty, and a mailbox
/// outside the group keeps its group, its state and its watches.
pub proof fn lemma_kill_closes_group(post: Seq<MailboxModel>, group: usize, index: int)
    requires
        post.len() <= usize::MAX,
        0 <= index < post.len(),
    ensures
        kill_of(post, group).len() == post.len(),
        post[index].group == group ==> kill_of(post, group)[index] == closed_mailbox(group),
        post[index].group != group ==> kill_of(post, group)[index].group == post[index].group
            && kill_of(post, group)[index].open == post[index].open && kill_of(
            post,
            group,
        )[index].watchers == post[index].watchers,
{
    let closed = close_all_of(post, group);
    let watches = group_watches(post, group, post.len() as int);
    lemma_fire_of(closed, watches);
    assert(kill_of(post, group)[index] == fired_mailbox(closed[index], watches, index));
}

/// Every watch among those of a group stands on a mailbox of the group.
pub proof fn lemma_group_watches_member(post: Seq<MailboxModel>, group: usize, upto: int, k: int)
    requires
        0 <= upto <= post.len(),
        0 <= k < group_watches(post, group, upto).len(),
    ensures
        exists|m: int|
            0 <= m < upto && post[m].group == group && #[trigger] post[m].watchers.contains(
                group_watches(post, group, upto)[k],
            ),
    decreases upto,
{
    let before = group_watches(post, group, upto - 1);
    let watch = group_watches(post, group, upto)[k];
    if post[upto - 1].group == group && k >= before.len() {
        let own = post[upto - 1].watchers;
        assert(own[k - before.len()] == watch);
        assert(post[upto - 1].watchers.contains(watch));
    } else {
        assert(before[k] == watch);
        lemma_group_watches_member(post, group, upto - 1, k);
        let m = choose|m: int|
            0 <= m < upto - 1 && post[m].group == group && #[trigger] post[m].watchers.contains(
                before[k],
            );
        assert(post[m].watchers.contains(watch));
    }
}

/// Where every watch for `watcher` among `watches` is on `subject`, every
/// `Down` that firing them sends to `watcher` names `subject`.
pub proof fn lemma_downs_of_one_subject(watches: Seq<Watch>, watcher: usize, subject: Capability)
    requires
        forall|k: int|
            0 <= k < watches.len() && (#[trigger] watches[k]).watcher == watcher ==> watches[k].subject
                == subject,
    ensures
        forall|j: int|
            0 <= j < downs_for(watches, watcher as int).len() ==> #[trigger] downs_for(
                watches,
                watcher as int,
            )[j] == (SignalModel::Down { subject }),
    decreases watches.len(),
{
    if watches.len() > 0 {
        let rest = watches.drop_first();
        assert forall|k: int| 0 <= k < rest.len() && (#[trigger] rest[k]).watcher
            == watcher implies rest[k].subject == subject by {
            assert(rest[k] == watches[k + 1]);
        }
        lemma_downs_of_one_subject(rest, watcher, subject);
        assert(watches[0].watcher == watcher ==> watches[0].subject == subject);
    }
}

/// A sequence that holds nothing but `x`, and `x` once, is `x` alone.
pub proof fn lemma_count_single<A>(s: Seq<A>, x: A)
    requires
        forall|j: int| 0 <= j < s.len() ==> #[trigger] s[j] == x,
        count_of(s, x) == 1,
    ensures
        s == seq![x],
{
    assert(s.len() > 0);
    let rest = s.drop_first();
    if rest.len() > 0 {
        assert(rest[0] == s[1]);
        assert(rest.drop_first().len() >= 0);
        assert(count_of(rest, x) >= 1);
    }
    assert(s =~= seq![x]);
}

} // verus!
