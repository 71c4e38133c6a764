//! The request half of a request and response: what a process does before
//! it waits for the answer.
//!
//! The process creates a reply mailbox, makes a capability to it that grants
//! `SEND` only, watches the service so that the wait ends if the service goes
//! down, and sends the request with the reply capability in front of the
//! capabilities that it passes along. The watch is installed where the
//! capability to the service grants `MONITOR`; a request needs no more than
//! `SEND`.

use vstd::prelude::*;
use crate::capability::{import_of, Capability, Handle, Route};
use crate::mailbox::{
    deliver_of, downs_for, fresh_mailbox, group_watches, is_open, post_wf, watch_of, MailboxModel,
    SignalModel, Watch,
};
use crate::mailbox_laws::{
    count_of, lemma_count_single, lemma_create_keeps_wf, lemma_deliver_keeps_wf,
    lemma_downs_of_one_subject, lemma_group_watches_member, lemma_kill_fires_each_monitor_once,
    lemma_watch_keeps_wf,
};
use crate::permissions::{Permission, Permissions};
use crate::process::{
    authorized, caps_of, factory_wf, is_alive, kill_process_of, monitor_of, monitor_result,
    send_check, with_post, with_table, FactoryModel, LocalProcessId, ProcessError, ProcessFactory,
    SendOutcome, SendOutcomeModel,
};

verus! {

/// A request that was sent.
#[derive(Debug)]
pub struct Pending {
    /// The mailbox in which the answer arrives.
    pub reply: usize,
    /// The handle of the capability to the reply mailbox that was sent along.
    pub reply_cap: Handle,
    /// How the send ended.
    pub outcome: SendOutcome,
}

/// The factory after process `pid` sent `payload` with the capabilities
/// behind `caps` to the route of `target`.
pub open spec fn sent_of(
    f: FactoryModel,
    pid: LocalProcessId,
    target: Handle,
    payload: Seq<u8>,
    caps: Seq<Handle>,
) -> FactoryModel {
    match send_check(f, pid, target, caps) {
        Err(_) => f,
        Ok((cap, exported)) => match cap.route {
            Route::Local { mailbox } => with_post(
                f,
                deliver_of(
                    f.post,
                    mailbox as int,
                    SignalModel::Message { payload, caps: exported },
                ),
            ),
            Route::Remote { .. } => f,
        },
    }
}

/// Whether process `pid` may send a request to `target` with `args`: the
/// target must grant `SEND`, and every handle of `args` must be live.
pub open spec fn request_check(
    f: FactoryModel,
    pid: LocalProcessId,
    target: Handle,
    args: Seq<Handle>,
) -> Result<(), ProcessError> {
    match authorized(f, pid, target, Permission::Send) {
        Err(e) => Err(e),
        Ok(_) => if caps_of(f.processes[pid.0 as int].table, args) is None {
            Err(ProcessError::InvalidHandle)
        } else {
            Ok(())
        },
    }
}

/// The capability to the reply mailbox that goes with a request.
pub open spec fn reply_cap_of(f: FactoryModel) -> Capability {
    Capability {
        route: Route::Local { mailbox: f.post.len() as usize },
        perms: Permissions::spec_only(Permission::Send),
    }
}

/// The capabilities that travel with a request: the one to the reply
/// mailbox first, then those behind `args`.
pub open spec fn request_caps(f: FactoryModel, pid: LocalProcessId, args: Seq<Handle>) -> Seq<
    Capability,
> {
    seq![reply_cap_of(f)] + caps_of(f.processes[pid.0 as int].table, args)->Some_0
}

/// The factory after a request was sent: the reply mailbox exists, the table
/// of `pid` holds the capability to it under the next handle, the reply
/// mailbox watches the target where the target grants `MONITOR`, and the
/// request is on its way with the reply capability first.
pub open spec fn request_of(
    f: FactoryModel,
    pid: LocalProcessId,
    target: Handle,
    payload: Seq<u8>,
    args: Seq<Handle>,
) -> FactoryModel {
    let p = f.processes[pid.0 as int];
    let reply = f.post.len() as usize;
    let handle = Handle(p.issued as usize);
    let created = with_post(f, f.post.push(fresh_mailbox(pid.0 as usize)));
    let minted = with_table(
        created,
        pid,
        import_of(p.table, handle, reply_cap_of(f)),
        p.issued + 1,
    );
    let watched = monitor_of(minted, pid, reply, target);
    sent_of(watched, pid, target, payload, seq![handle] + args)
}

/// How the send of a request ends: delivered to a local mailbox that is open
/// once the reply mailbox exists, dropped at one that is not, and handed
/// back for framing, with the capabilities of [`request_caps`], where the
/// target lives on a peer.
pub open spec fn request_outcome(
    f: FactoryModel,
    pid: LocalProcessId,
    target: Handle,
    payload: Seq<u8>,
    args: Seq<Handle>,
) -> SendOutcomeModel {
    match f.processes[pid.0 as int].table[target].route {
        Route::Local { mailbox } => if is_open(
            f.post.push(fresh_mailbox(pid.0 as usize)),
            mailbox as int,
        ) {
            SendOutcomeModel::Delivered
        } else {
            SendOutcomeModel::RouteClosed
        },
        Route::Remote { peer, cap } => SendOutcomeModel::Forward {
            peer,
            cap,
            payload,
            caps: request_caps(f, pid, args),
        },
    }
}

/// Sends a request from process `pid` to the service behind `target`. The
/// request is refused, and nothing changes, unless `target` grants `SEND` and
/// every handle of `args` is live. The reply mailbox watches the target
/// where the target grants `MONITOR`; where it does not, no watch is
/// installed and the request is sent all the same. The answer will arrive
/// in the reply mailbox, or a `Down` if a watched service ends first.
pub fn request(
    factory: &mut ProcessFactory,
    pid: LocalProcessId,
    target: Handle,
    payload: Vec<u8>,
    args: &Vec<Handle>,
) -> (r: Result<Pending, ProcessError>)
    requires
        old(factory).wf(),
    ensures
        final(factory).wf(),
        r is Ok <==> request_check(old(factory)@, pid, target, args@) is Ok,
        r matches Err(e) ==> request_check(old(factory)@, pid, target, args@) == Err::<
            (),
            ProcessError,
        >(e) && final(factory)@ == old(factory)@,
        r matches Ok(pending) ==> pending.reply == old(factory)@.post.len() && pending.reply_cap.0
            == old(factory)@.processes[pid.0 as int].issued && pending.outcome@
            == request_outcome(old(factory)@, pid, target, payload@, args@) && final(factory)@
            == request_of(old(factory)@, pid, target, payload@, args@),
{
    let ghost before = factory@;
    if !factory.is_alive(pid) {
        return Err(ProcessError::NoSuchProcess);
    }
    let ghost p = before.processes[pid.0 as int];
    match factory.table(pid) {
        None => {
            return Err(ProcessError::NoSuchProcess);
        },
        Some(table) => {
            let cap = match table.resolve(target) {
                None => {
                    return Err(ProcessError::InvalidHandle);
                },
                Some(cap) => cap,
            };
            if !cap.perms.has(Permission::Send) {
                return Err(ProcessError::PermissionDenied);
            }
            let mut i: usize = 0;
            while i < args.len()
                invariant
                    i <= args@.len(),
                    table@ == p.table,
                    factory.wf(),
                    factory@ == old(factory)@,
                    before == old(factory)@,
                    is_alive(before, pid),
                    p == before.processes[pid.0 as int],
                    authorized(before, pid, target, Permission::Send) is Ok,
                    forall|k: int| 0 <= k < i ==> p.table.contains_key(#[trigger] args@[k]),
                decreases args@.len() - i,
            {
                if !table.is_valid(args[i]) {
                    assert(!p.table.contains_key(args@[i as int]));
                    return Err(ProcessError::InvalidHandle);
                }
                i = i + 1;
            }
        },
    }
    assert(request_check(before, pid, target, args@) is Ok);
    let reply = match factory.mailbox_new(pid) {
        Ok(reply) => reply,
        Err(e) => {
            return Err(e);
        },
    };
    let ghost created = factory@;
    proof {
        factory.lemma_wf();
        assert(created.processes == before.processes);
    }
    let handle = match factory.make_capability(pid, reply, Permissions::send()) {
        Ok(handle) => handle,
        Err(e) => {
            return Err(e);
        },
    };
    let ghost minted = factory@;
    proof {
        assert(handle == Handle(p.issued as usize));
        assert(minted.processes[pid.0 as int].table.contains_key(target));
        assert(minted.processes[pid.0 as int].table[target] == p.table[target]);
    }
    // Whether the watch was installed is not the requester's concern: a
    // target that does not grant it simply cannot be watched.
    let _watch = factory.monitor(pid, reply, target);
    let ghost watched = factory@;
    let mut caps: Vec<Handle> = Vec::new();
    caps.push(handle);
    let mut i: usize = 0;
    while i < args.len()
        invariant
            i <= args@.len(),
            caps@ == seq![handle] + args@.take(i as int),
        decreases args@.len() - i,
    {
        caps.push(args[i]);
        assert(caps@ =~= seq![handle] + args@.take(i + 1));
        i = i + 1;
    }
    proof {
        assert(args@.take(i as int) =~= args@);
        let all = seq![handle] + args@;
        let table = watched.processes[pid.0 as int].table;
        assert(table == minted.processes[pid.0 as int].table);
        assert forall|k: int| 0 <= k < all.len() implies table.contains_key(#[trigger] all[k]) by {
            if k > 0 {
                assert(all[k] == args@[k - 1]);
                assert(p.table.contains_key(args@[k - 1]));
            }
        }
        assert(send_check(watched, pid, target, all) is Ok);
        let exported = send_check(watched, pid, target, all)->Ok_0.1;
        assert(exported =~= request_caps(before, pid, args@)) by {
            assert forall|k: int| 0 <= k < all.len() implies exported[k] == request_caps(
                before,
                pid,
                args@,
            )[k] by {
                if k > 0 {
                    assert(all[k] == args@[k - 1]);
                    assert(p.table.contains_key(args@[k - 1]));
                }
            }
        }
        lemma_watch_keeps_open(minted, pid, reply, target);
    }
    match factory.send(pid, target, payload, &caps) {
        Ok(outcome) => Ok(Pending { reply, reply_cap: handle, outcome }),
        Err(e) => Err(e),
    }
}

/// Installing a watch opens and closes nothing.
pub proof fn lemma_watch_keeps_open(
    f: FactoryModel,
    pid: LocalProcessId,
    mailbox: usize,
    subject: Handle,
)
    ensures
        monitor_of(f, pid, mailbox, subject).post.len() == f.post.len(),
        forall|m: int| is_open(monitor_of(f, pid, mailbox, subject).post, m) == is_open(f.post, m),
{
}

/// A request needs no more than `SEND`: through a target that grants `SEND`
/// and not `MONITOR` the request is sent as through any other, only that no
/// watch is installed, so the post office differs from the one before by the
/// reply mailbox and the message alone.
pub proof fn lemma_request_without_monitor(
    f: FactoryModel,
    pid: LocalProcessId,
    target: Handle,
    payload: Seq<u8>,
    args: Seq<Handle>,
)
    requires
        factory_wf(f),
        f.processes[pid.0 as int].issued < usize::MAX,
        request_check(f, pid, target, args) is Ok,
        !f.processes[pid.0 as int].table[target].perms@.contains(Permission::Monitor),
    ensures
        ({
            let p = f.processes[pid.0 as int];
            let handle = Handle(p.issued as usize);
            let created = with_post(f, f.post.push(fresh_mailbox(pid.0 as usize)));
            let minted = with_table(
                created,
                pid,
                import_of(p.table, handle, reply_cap_of(f)),
                p.issued + 1,
            );
            request_of(f, pid, target, payload, args) == sent_of(
                minted,
                pid,
                target,
                payload,
                seq![handle] + args,
            )
        }),
{
    let p = f.processes[pid.0 as int];
    let handle = Handle(p.issued as usize);
    assert(handle != target);
}

/// Whether every watch of a post office is for a mailbox that exists.
pub open spec fn watchers_exist(post: Seq<MailboxModel>) -> bool {
    forall|i: int, k: int|
        0 <= i < post.len() && 0 <= k < post[i].watchers.len() ==> (#[trigger] post[i].watchers[k]).watcher
            < post.len()
}

/// What a request through a target that grants `MONITOR`, to an open mailbox
/// `m`, leaves at the post office: the reply mailbox is new and empty, it
/// watches the target at `m`, and every other watch is one that stood
/// before.
proof fn lemma_request_post(
    f: FactoryModel,
    pid: LocalProcessId,
    target: Handle,
    payload: Seq<u8>,
    args: Seq<Handle>,
    m: usize,
)
    requires
        factory_wf(f),
        f.post.len() < usize::MAX,
        f.processes[pid.0 as int].issued < usize::MAX,
        request_check(f, pid, target, args) is Ok,
        f.processes[pid.0 as int].table[target].perms@.contains(Permission::Monitor),
        f.processes[pid.0 as int].table[target].route == (Route::Local { mailbox: m }),
        is_open(f.post, m as int),
        f.post[m as int].group != pid.0,
    ensures
        ({
            let subject = f.processes[pid.0 as int].table[target];
            let reply = f.post.len() as usize;
            let sent = request_of(f, pid, target, payload, args);
            let watch = Watch { watcher: reply, subject };
            &&& post_wf(sent.post)
            &&& sent.post.len() == f.post.len() + 1
            &&& sent.processes.len() == f.processes.len()
            &&& sent.post[reply as int] == fresh_mailbox(pid.0 as usize)
            &&& sent.post[m as int].group == f.post[m as int].group
            &&& sent.post[m as int].watchers.contains(watch)
            &&& forall|i: int, w: Watch|
                0 <= i < sent.post.len() && #[trigger] sent.post[i].watchers.contains(w) ==> w
                    == watch || (i < f.post.len() && f.post[i].watchers.contains(w))
        }),
{
    let p = f.processes[pid.0 as int];
    let subject = p.table[target];
    let reply = f.post.len() as usize;
    let handle = Handle(p.issued as usize);
    let created = with_post(f, f.post.push(fresh_mailbox(pid.0 as usize)));
    let minted = with_table(created, pid, import_of(p.table, handle, reply_cap_of(f)), p.issued + 1);
    let watched = monitor_of(minted, pid, reply, target);
    let sent = request_of(f, pid, target, payload, args);
    let watch = Watch { watcher: reply, subject };

    lemma_create_keeps_wf(f.post, pid.0 as usize);
    assert(handle != target);
    assert(minted.processes[pid.0 as int].table[target] == subject);
    assert(monitor_result(minted, pid, reply, target) is Ok);
    assert(watched.post == watch_of(created.post, subject, reply));
    lemma_watch_keeps_wf(created.post, subject, reply);
    assert(is_open(created.post, m as int));
    let before = created.post[m as int].watchers;
    assert(watched.post[m as int].watchers.contains(watch)) by {
        if !before.contains(watch) {
            assert(before.push(watch)[before.len() as int] == watch);
        }
    }
    assert(watched.post[reply as int] == fresh_mailbox(pid.0 as usize));
    match send_check(watched, pid, target, seq![handle] + args) {
        Err(_) => {},
        Ok((cap, exported)) => {
            lemma_deliver_keeps_wf(
                watched.post,
                m as int,
                SignalModel::Message { payload, caps: exported },
            );
        },
    }
    assert(sent.post[m as int].watchers == watched.post[m as int].watchers);
    assert(sent.post[reply as int] == fresh_mailbox(pid.0 as usize));
    assert forall|i: int, w: Watch|
        0 <= i < sent.post.len() && #[trigger] sent.post[i].watchers.contains(w) implies w == watch
        || (i < f.post.len() && f.post[i].watchers.contains(w)) by {
        assert(sent.post[i].watchers == watched.post[i].watchers);
        if i == m {
            if !before.contains(watch) {
                let k = choose|k: int|
                    0 <= k < before.push(watch).len() && before.push(watch)[k] == w;
                if k < before.len() {
                    assert(before[k] == w);
                }
            }
        } else if i < f.post.len() {
            assert(watched.post[i].watchers == f.post[i].watchers);
        }
    }
}

/// A pending request learns of the end of its service. Where a request went
/// through a target that grants `MONITOR` as well, to an open mailbox `m` of
/// another process, and that process is killed before it answers, one `Down`
/// that names the target is in the reply mailbox. The post office and the
/// table of the requester have to have room for the reply mailbox and its
/// handle.
pub proof fn lemma_down_reaches_pending_request(
    f: FactoryModel,
    pid: LocalProcessId,
    target: Handle,
    payload: Seq<u8>,
    args: Seq<Handle>,
    m: usize,
)
    requires
        factory_wf(f),
        f.post.len() < usize::MAX,
        f.processes[pid.0 as int].issued < usize::MAX,
        request_check(f, pid, target, args) is Ok,
        f.processes[pid.0 as int].table[target].perms@.contains(Permission::Monitor),
        f.processes[pid.0 as int].table[target].route == (Route::Local { mailbox: m }),
        is_open(f.post, m as int),
        f.post[m as int].group != pid.0,
    ensures
        ({
            let subject = f.processes[pid.0 as int].table[target];
            let reply = f.post.len() as int;
            let killed = kill_process_of(
                request_of(f, pid, target, payload, args),
                f.post[m as int].group as int,
            );
            count_of(killed.post[reply].queue, SignalModel::Down { subject }) == 1
        }),
{
    let subject = f.processes[pid.0 as int].table[target];
    let reply = f.post.len() as usize;
    let group = f.post[m as int].group;
    let sent = request_of(f, pid, target, payload, args);
    lemma_request_post(f, pid, target, payload, args, m);
    lemma_kill_fires_each_monitor_once(sent.post, group, reply, subject, m);
    assert(group < sent.processes.len());
    assert(count_of(sent.post[reply as int].queue, SignalModel::Down { subject }) == 0);
}

/// The `Down` is all that a pending request gets when its service is killed
/// before it answers: the reply mailbox then holds that one signal, so it is
/// the next that the requester receives. This needs, beside what
/// [`lemma_down_reaches_pending_request`] needs, that no watch stood before
/// for a mailbox that did not exist: such a watch could be for the mailbox
/// that becomes the reply mailbox.
pub proof fn lemma_down_is_all_a_pending_request_gets(
    f: FactoryModel,
    pid: LocalProcessId,
    target: Handle,
    payload: Seq<u8>,
    args: Seq<Handle>,
    m: usize,
)
    requires
        factory_wf(f),
        watchers_exist(f.post),
        f.post.len() < usize::MAX,
        f.processes[pid.0 as int].issued < usize::MAX,
        request_check(f, pid, target, args) is Ok,
        f.processes[pid.0 as int].table[target].perms@.contains(Permission::Monitor),
        f.processes[pid.0 as int].table[target].route == (Route::Local { mailbox: m }),
        is_open(f.post, m as int),
        f.post[m as int].group != pid.0,
    ensures
        ({
            let subject = f.processes[pid.0 as int].table[target];
            let reply = f.post.len() as int;
            let killed = kill_process_of(
                request_of(f, pid, target, payload, args),
                f.post[m as int].group as int,
            );
            killed.post[reply].queue == seq![SignalModel::Down { subject }]
        }),
{
    let subject = f.processes[pid.0 as int].table[target];
    let reply = f.post.len() as usize;
    let group = f.post[m as int].group;
    let sent = request_of(f, pid, target, payload, args);
    let watch = Watch { watcher: reply, subject };
    lemma_request_post(f, pid, target, payload, args, m);
    lemma_kill_fires_each_monitor_once(sent.post, group, reply, subject, m);
    assert(group < sent.processes.len());
    let watches = group_watches(sent.post, group, sent.post.len() as int);
    let downs = downs_for(watches, reply as int);
    assert forall|k: int| 0 <= k < watches.len() && (#[trigger] watches[k]).watcher
        == reply implies watches[k].subject == subject by {
        lemma_group_watches_member(sent.post, group, sent.post.len() as int, k);
        let i = choose|i: int|
            0 <= i < sent.post.len() && sent.post[i].group == group && #[trigger] sent.post[i].watchers.contains(
                watches[k],
            );
        if watches[k] != watch {
            assert(i < f.post.len() && f.post[i].watchers.contains(watches[k]));
            let j = choose|j: int|
                0 <= j < f.post[i].watchers.len() && f.post[i].watchers[j] == watches[k];
            assert(f.post[i].watchers[j].watcher < f.post.len());
        }
    }
    lemma_downs_of_one_subject(watches, reply, subject);
    lemma_count_single(downs, SignalModel::Down { subject });
    let killed = kill_process_of(sent, group as int);
    assert(killed.post[reply as int].queue =~= downs);
}

} // verus!
