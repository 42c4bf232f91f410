// The foreground chain alternates between two kinds of node:
//
//  a session (a set of processes bound to a tty), whose child is the
//    foreground process group of that tty;
//  a process group, whose child is the session behind it, present only when
//    the group's leader is a known tty-forwarding launcher and the session it
//    forwards to could be found.
//
// The chain is kept flat: session `k`'s child is `groups[k]`, and group `k`'s
// child is `sessions[k + 1]`. A node is replaced, never edited, when the
// process that it stands for changes.
//
// An update walks the chain from the root. Every lookup that it needs is
// handed out as a `Query`; the caller answers it through the matching
// `on_*` method, which decides the next lookup.
use crate::podman::{duplicate_info, ContainerInfo};
use vstd::prelude::*;
use vstd::string::StringExecFns;

verus! {

/// The launcher whose sessions are followed unless others are configured.
pub const DEFAULT_LAUNCHER: &'static str = "/home/otaylor/bin/toolbox";

/// A session, by the pid of its leader, with the container it runs in.
pub struct SessionNode {
    pub pid: i32,
    pub container_info: Option<ContainerInfo>,
}

impl SessionNode {
    pub fn new(pid: i32, container_info: Option<ContainerInfo>) -> (r: SessionNode)
        ensures
            r.pid == pid,
            r.container_info == container_info,
    {
        SessionNode { pid, container_info }
    }
}

/// A process group, by its id.
pub struct GroupNode {
    pub pgrp: i32,
}

impl GroupNode {
    pub fn new(pgrp: i32) -> (r: GroupNode)
        ensures
            r.pgrp == pgrp,
    {
        GroupNode { pgrp }
    }
}

/// The lookup that an update needs next.
#[derive(PartialEq, Eq, Structural, Clone, Copy, Debug)]
pub enum Query {
    /// The foreground process group of the tty of this session leader.
    TtyProcessGroup(i32),
    /// The first argument of the command line of this group leader.
    LeaderArgv0(i32),
    /// The session that the launcher leading this process group forwards to:
    /// its pid and the container that it runs in.
    ContainedPeer(i32),
    /// The first argument and the working directory of this process.
    Foreground(i32),
    /// The update is over.
    Done,
}

/// The tracker as the contracts see it: the chain, where the walk stands and
/// what it waits for, the container found so far on this walk, and the three
/// outputs of the last finished walk.
pub struct TrackerView {
    pub sessions: Seq<SessionNode>,
    pub groups: Seq<GroupNode>,
    pub cursor: int,
    pub awaiting: Query,
    pub found: Option<ContainerInfo>,
    pub container_info: Option<ContainerInfo>,
    pub argv0: Seq<char>,
    pub cwd: Seq<char>,
    pub launchers: Seq<Seq<char>>,
}

/// The metadata of the deepest session that carries any.
pub open spec fn deepest_info(ss: Seq<SessionNode>) -> Option<ContainerInfo>
    decreases ss.len(),
{
    if ss.len() == 0 {
        None
    } else if ss.last().container_info is Some {
        ss.last().container_info
    } else {
        deepest_info(ss.drop_last())
    }
}

/// Some session of `ss` is led by `pid`.
pub open spec fn visited(ss: Seq<SessionNode>, pid: i32) -> bool {
    exists|i: int| 0 <= i < ss.len() && ss[i].pid == pid
}

/// No two sessions of the chain have the same leader, so a walk down the
/// chain never comes back to a session it has passed.
pub open spec fn distinct_pids(ss: Seq<SessionNode>) -> bool {
    forall|i: int, j: int| 0 <= i < j < ss.len() ==> ss[i].pid != ss[j].pid
}

/// A text that could be read, or the empty text.
pub open spec fn text_or_empty(o: Option<String>) -> Seq<char> {
    match o {
        Some(s) => s@,
        None => Seq::empty(),
    }
}

impl TrackerView {
    pub open spec fn wf(self) -> bool {
        &&& self.sessions.len() >= 1
        &&& self.sessions[0].container_info is None
        &&& distinct_pids(self.sessions)
        &&& (self.groups.len() == self.sessions.len() || self.groups.len() + 1
            == self.sessions.len())
        &&& 0 <= self.cursor < self.sessions.len()
        &&& self.found == deepest_info(self.sessions.take(self.cursor + 1))
        &&& match self.awaiting {
            Query::TtyProcessGroup(p) => p == self.sessions[self.cursor].pid,
            Query::LeaderArgv0(p) => self.cursor < self.groups.len() && p
                == self.groups[self.cursor].pgrp,
            Query::ContainedPeer(p) => self.cursor < self.groups.len() && p
                == self.groups[self.cursor].pgrp,
            _ => true,
        }
    }
}

/// Starting an update: the walk begins at the root session.
pub open spec fn begin_spec(v: TrackerView) -> TrackerView {
    TrackerView {
        cursor: 0,
        awaiting: Query::TtyProcessGroup(v.sessions[0].pid),
        found: None,
        ..v
    }
}

/// The foreground group of the current session is known, or cannot be had.
pub open spec fn tty_spec(v: TrackerView, r: Option<i32>) -> TrackerView {
    let k = v.cursor;
    match r {
        None => {
            let cut = TrackerView {
                sessions: v.sessions.take(k + 1),
                groups: v.groups.take(k),
                ..v
            };
            if k == 0 {
                TrackerView {
                    container_info: None,
                    argv0: Seq::empty(),
                    cwd: Seq::empty(),
                    awaiting: Query::Done,
                    ..cut
                }
            } else {
                TrackerView { awaiting: Query::Foreground(v.groups[k - 1].pgrp), ..cut }
            }
        },
        Some(p) => if k < v.groups.len() && v.groups[k].pgrp == p {
            TrackerView { awaiting: Query::LeaderArgv0(p), ..v }
        } else {
            TrackerView {
                sessions: v.sessions.take(k + 1),
                groups: v.groups.take(k).push(GroupNode { pgrp: p }),
                awaiting: Query::LeaderArgv0(p),
                ..v
            }
        },
    }
}

/// The leader of the current group is known: a launcher is looked into,
/// anything else ends the walk at this group.
pub open spec fn leader_spec(v: TrackerView, argv0: Option<Seq<char>>) -> TrackerView {
    let k = v.cursor;
    let p = v.groups[k].pgrp;
    if argv0 is Some && v.launchers.contains(argv0->0) {
        TrackerView { awaiting: Query::ContainedPeer(p), ..v }
    } else {
        TrackerView {
            sessions: v.sessions.take(k + 1),
            groups: v.groups.take(k + 1),
            awaiting: Query::Foreground(p),
            ..v
        }
    }
}

/// The session behind the current group is known, or cannot be found. A
/// session that the walk has already passed ends the walk, as none was found.
pub open spec fn peer_spec(v: TrackerView, r: Option<(i32, Option<ContainerInfo>)>) -> TrackerView {
    let k = v.cursor;
    let p = v.groups[k].pgrp;
    match r {
        Some((pid, ci)) if !visited(v.sessions.take(k + 1), pid) => {
            let kept = k + 1 < v.sessions.len() && v.sessions[k + 1].pid == pid;
            let w = if kept {
                v
            } else {
                TrackerView {
                    sessions: v.sessions.take(k + 1).push(SessionNode { pid, container_info: ci }),
                    groups: v.groups.take(k + 1),
                    ..v
                }
            };
            let node = w.sessions[k + 1];
            TrackerView {
                cursor: k + 1,
                found: if node.container_info is Some {
                    node.container_info
                } else {
                    v.found
                },
                awaiting: Query::TtyProcessGroup(pid),
                ..w
            }
        },
        _ => TrackerView {
            sessions: v.sessions.take(k + 1),
            groups: v.groups.take(k + 1),
            awaiting: Query::Foreground(p),
            ..v
        },
    }
}

/// The leaf process is known: the three outputs are set together.
pub open spec fn foreground_spec(v: TrackerView, argv0: Seq<char>, cwd: Seq<char>) -> TrackerView {
    TrackerView { container_info: v.found, argv0, cwd, awaiting: Query::Done, ..v }
}

proof fn lemma_deepest_take(ss: Seq<SessionNode>, k: int)
    requires
        0 <= k < ss.len(),
    ensures
        ss.take(k + 1).drop_last() == ss.take(k),
        ss.take(k + 1).last() == ss[k],
{
    assert(ss.take(k + 1).drop_last() =~= ss.take(k));
}

proof fn lemma_root_info(ss: Seq<SessionNode>)
    requires
        ss.len() >= 1,
        ss[0].container_info is None,
    ensures
        deepest_info(ss.take(1)) is None,
{
    lemma_deepest_take(ss, 0);
    assert(ss.take(0) =~= Seq::<SessionNode>::empty());
    assert(deepest_info(ss.take(0)) is None);
    assert(ss.take(1).last().container_info is None);
}

/// With no foreground group at the root, an update clears all three outputs.
pub proof fn lemma_empty_chain(v: TrackerView)
    requires
        v.wf(),
    ensures
        tty_spec(begin_spec(v), None).container_info is None,
        tty_spec(begin_spec(v), None).argv0 == Seq::<char>::empty(),
        tty_spec(begin_spec(v), None).cwd == Seq::<char>::empty(),
        tty_spec(begin_spec(v), None).awaiting == Query::Done,
{
}

/// When the root's foreground group is another one than the cached group, the
/// group is replaced by a fresh node for the new one, everything below it is
/// dropped, and a walk that stops there reports the new group.
pub proof fn lemma_root_group_replaced(v: TrackerView, p: i32, argv0: Option<Seq<char>>)
    requires
        v.wf(),
        v.groups.len() > 0,
        v.groups[0].pgrp != p,
        !(argv0 is Some && v.launchers.contains(argv0->0)),
    ensures
        tty_spec(begin_spec(v), Some(p)).groups == seq![GroupNode { pgrp: p }],
        tty_spec(begin_spec(v), Some(p)).sessions == seq![v.sessions[0]],
        leader_spec(tty_spec(begin_spec(v), Some(p)), argv0).awaiting == Query::Foreground(p),
{
    assert(v.sessions.take(1) =~= seq![v.sessions[0]]);
    assert(v.groups.take(0).push(GroupNode { pgrp: p }) =~= seq![GroupNode { pgrp: p }]);
}

/// The container reported at the end of a walk is that of the deepest session
/// visited that carries one; a walk that found no contained session reports
/// none.
pub proof fn lemma_deepest_container(v: TrackerView, argv0: Seq<char>, cwd: Seq<char>)
    requires
        v.wf(),
    ensures
        foreground_spec(v, argv0, cwd).container_info == deepest_info(
            v.sessions.take(v.cursor + 1),
        ),
        v.cursor == 0 ==> foreground_spec(v, argv0, cwd).container_info is None,
{
    if v.cursor == 0 {
        lemma_root_info(v.sessions);
    }
}

/// The decimal digits of `n`, most significant first.
pub open spec fn digits_text(n: nat) -> Seq<char>
    decreases n,
{
    if n < 10 {
        seq![(48 + n) as char]
    } else {
        digits_text(n / 10).push((48 + n % 10) as char)
    }
}

/// An integer in decimal, with a leading `-` when it is negative.
pub open spec fn int_text(n: int) -> Seq<char> {
    if n < 0 {
        seq!['-'] + digits_text((-n) as nat)
    } else {
        digits_text(n as nat)
    }
}

/// Relies on `i32::to_string`: the integer in decimal, with a leading `-`
/// when it is negative.
#[verifier::external_body]
fn i32_text(n: i32) -> (r: String)
    ensures
        r@ == int_text(n as int),
{
    n.to_string()
}

/// ` S-<pid>` for each session of the chain.
pub open spec fn sessions_text(ss: Seq<SessionNode>) -> Seq<char>
    decreases ss.len(),
{
    if ss.len() == 0 {
        seq![]
    } else {
        sessions_text(ss.drop_last()) + " S-"@ + int_text(ss.last().pid as int)
    }
}

/// A contained session that the walk has already passed ends the walk: the
/// chain never holds the same session twice, so no walk goes on for ever.
pub proof fn lemma_repeated_session_ends_walk(
    v: TrackerView,
    pid: i32,
    ci: Option<ContainerInfo>,
)
    requires
        v.wf(),
        v.awaiting is ContainedPeer,
        visited(v.sessions.take(v.cursor + 1), pid),
    ensures
        peer_spec(v, Some((pid, ci))).awaiting == Query::Foreground(v.groups[v.cursor].pgrp),
        peer_spec(v, Some((pid, ci))).sessions == v.sessions.take(v.cursor + 1),
{
}

/// Tracks the foreground process of the shell, across container launchers.
pub struct TerminalState {
    sessions: Vec<SessionNode>,
    groups: Vec<GroupNode>,
    cursor: usize,
    awaiting: Query,
    found: Option<ContainerInfo>,
    container_info: Option<ContainerInfo>,
    foreground_argv0: String,
    foreground_cwd: String,
    launchers: Vec<String>,
}

impl View for TerminalState {
    type V = TrackerView;

    closed spec fn view(&self) -> TrackerView {
        TrackerView {
            sessions: self.sessions@,
            groups: self.groups@,
            cursor: self.cursor as int,
            awaiting: self.awaiting,
            found: self.found,
            container_info: self.container_info,
            argv0: self.foreground_argv0@,
            cwd: self.foreground_cwd@,
            launchers: self.launchers@.map_values(|s: String| s@),
        }
    }
}

impl TerminalState {
    pub open spec fn wf(&self) -> bool {
        self@.wf()
    }

    pub fn new(root_pid: i32) -> (r: TerminalState)
        ensures
            r.wf(),
            r@.sessions == seq![SessionNode { pid: root_pid, container_info: None }],
            r@.groups == Seq::<GroupNode>::empty(),
            r@.awaiting == Query::Done,
            r@.container_info is None,
            r@.argv0 == Seq::<char>::empty(),
            r@.cwd == Seq::<char>::empty(),
            r@.launchers == seq![DEFAULT_LAUNCHER@],
    {
        let mut sessions = Vec::new();
        sessions.push(SessionNode::new(root_pid, None));
        let mut launchers = Vec::new();
        launchers.push(DEFAULT_LAUNCHER.to_owned());
        let r = TerminalState {
            sessions,
            groups: Vec::new(),
            cursor: 0,
            awaiting: Query::Done,
            found: None,
            container_info: None,
            foreground_argv0: String::new(),
            foreground_cwd: String::new(),
            launchers,
        };
        proof {
            lemma_root_info(r.sessions@);
            assert(r@.launchers =~= seq![DEFAULT_LAUNCHER@]);
        }
        r
    }

    /// Replaces the paths of the programs whose sessions are followed.
    pub fn set_launchers(&mut self, launchers: Vec<String>)
        requires
            old(self).wf(),
        ensures
            final(self).wf(),
            final(self)@ == (TrackerView {
                launchers: launchers@.map_values(|s: String| s@),
                ..old(self)@
            }),
    {
        self.launchers = launchers;
    }

    /// Starts an update at the root session and returns the first lookup.
    pub fn update(&mut self) -> (q: Query)
        requires
            old(self).wf(),
        ensures
            final(self).wf(),
            final(self)@ == begin_spec(old(self)@),
            q == final(self)@.awaiting,
    {
        self.cursor = 0;
        self.found = None;
        self.awaiting = Query::TtyProcessGroup(self.sessions[0].pid);
        proof {
            lemma_root_info(self.sessions@);
        }
        self.awaiting
    }

    /// The answer to `Query::TtyProcessGroup`: `None` when the session has
    /// no foreground group, or it could not be read.
    pub fn on_tty_process_group(&mut self, tty_pgrp: Option<i32>) -> (q: Query)
        requires
            old(self).wf(),
            old(self)@.awaiting is TtyProcessGroup,
        ensures
            final(self).wf(),
            final(self)@ == tty_spec(old(self)@, tty_pgrp),
            q == final(self)@.awaiting,
    {
        let k = self.cursor;
        let n = self.sessions.len();
        assert(k < n);
        let ghost v = self@;
        match tty_pgrp {
            None => {
                self.sessions.truncate(k + 1);
                self.groups.truncate(k);
                if k == 0 {
                    self.container_info = None;
                    self.foreground_argv0 = String::new();
                    self.foreground_cwd = String::new();
                    self.awaiting = Query::Done;
                } else {
                    self.awaiting = Query::Foreground(self.groups[k - 1].pgrp);
                }
                proof {
                    assert(self.sessions@.take(k + 1) =~= v.sessions.take(k + 1));
                }
            },
            Some(p) => {
                let same = k < self.groups.len() && self.groups[k].pgrp == p;
                if !same {
                    self.sessions.truncate(k + 1);
                    self.groups.truncate(k);
                    self.groups.push(GroupNode::new(p));
                    proof {
                        assert(self.sessions@.take(k + 1) =~= v.sessions.take(k + 1));
                    }
                }
                self.awaiting = Query::LeaderArgv0(p);
            },
        }
        self.awaiting
    }

    fn is_launcher(&self, argv0: &String) -> (r: bool)
        ensures
            r == self@.launchers.contains(argv0@),
    {
        let ghost ls = self@.launchers;
        let mut i: usize = 0;
        while i < self.launchers.len()
            invariant
                0 <= i <= self.launchers@.len(),
                ls == self.launchers@.map_values(|s: String| s@),
                forall|j: int| 0 <= j < i ==> ls[j] != argv0@,
            decreases self.launchers@.len() - i,
        {
            if self.launchers[i] == *argv0 {
                assert(ls[i as int] == argv0@);
                return true;
            }
            i = i + 1;
        }
        proof {
            if ls.contains(argv0@) {
                let j = choose|j: int| 0 <= j < ls.len() && ls[j] == argv0@;
                assert(ls[j] != argv0@);
            }
        }
        false
    }

    /// The answer to `Query::LeaderArgv0`: `None` when it could not be read.
    pub fn on_leader_argv0(&mut self, argv0: Option<String>) -> (q: Query)
        requires
            old(self).wf(),
            old(self)@.awaiting is LeaderArgv0,
        ensures
            final(self).wf(),
            final(self)@ == leader_spec(
                old(self)@,
                match argv0 {
                    Some(s) => Some(s@),
                    None => None,
                },
            ),
            q == final(self)@.awaiting,
    {
        let k = self.cursor;
        let n = self.sessions.len();
        assert(k < n);
        let p = self.groups[k].pgrp;
        let launcher = match &argv0 {
            Some(a) => self.is_launcher(a),
            None => false,
        };
        if launcher {
            self.awaiting = Query::ContainedPeer(p);
        } else {
            let ghost v = self@;
            self.sessions.truncate(k + 1);
            self.groups.truncate(k + 1);
            self.awaiting = Query::Foreground(p);
            proof {
                assert(self.sessions@.take(k + 1) =~= v.sessions.take(k + 1));
            }
        }
        self.awaiting
    }

    /// The answer to `Query::ContainedPeer`: the pid of the contained session
    /// and its container, or `None` when no such session was found.
    pub fn on_contained_peer(&mut self, peer: Option<(i32, Option<ContainerInfo>)>) -> (q: Query)
        requires
            old(self).wf(),
            old(self)@.awaiting is ContainedPeer,
        ensures
            final(self).wf(),
            final(self)@ == peer_spec(old(self)@, peer),
            q == final(self)@.awaiting,
    {
        let k = self.cursor;
        let n = self.sessions.len();
        assert(k < n);
        let p = self.groups[k].pgrp;
        let ghost v = self@;
        let fresh = match &peer {
            Some((pid, _)) => !self.passed(k, *pid),
            None => false,
        };
        if !fresh {
            self.sessions.truncate(k + 1);
            self.groups.truncate(k + 1);
            self.awaiting = Query::Foreground(p);
            proof {
                assert(self.sessions@.take(k + 1) =~= v.sessions.take(k + 1));
                assert(self@ =~= peer_spec(v, peer));
            }
            return self.awaiting;
        }
        match peer {
            None => {},
            Some((pid, ci)) => {
                let kept = k + 1 < self.sessions.len() && self.sessions[k + 1].pid == pid;
                if !kept {
                    self.sessions.truncate(k + 1);
                    self.groups.truncate(k + 1);
                    self.sessions.push(SessionNode::new(pid, ci));
                    proof {
                        assert(self.sessions@.take(k + 1) =~= v.sessions.take(k + 1));
                        assert forall|i: int, j: int|
                            0 <= i < j < self.sessions@.len() implies self.sessions@[i].pid
                            != self.sessions@[j].pid by {
                            if j == k + 1 {
                                assert(v.sessions.take(k + 1)[i] == self.sessions@[i]);
                            }
                        }
                    }
                }
                let ghost w = self@;
                if self.sessions[k + 1].container_info.is_some() {
                    self.found = duplicate_info(&self.sessions[k + 1].container_info);
                }
                self.cursor = k + 1;
                self.awaiting = Query::TtyProcessGroup(pid);
                proof {
                    lemma_deepest_take(self.sessions@, k + 1);
                    lemma_deepest_take(v.sessions, k as int);
                    assert(self.sessions@.take(k + 1) =~= v.sessions.take(k + 1));
                }
            },
        }
        self.awaiting
    }

    /// Whether one of the first `k + 1` sessions is led by `pid`.
    fn passed(&self, k: usize, pid: i32) -> (r: bool)
        requires
            k < self.sessions@.len() <= usize::MAX,
        ensures
            r == visited(self.sessions@.take(k + 1), pid),
    {
        let ghost ss = self.sessions@.take(k + 1);
        let mut i: usize = 0;
        while i <= k
            invariant
                k < self.sessions@.len() <= usize::MAX,
                ss == self.sessions@.take(k + 1),
                0 <= i <= k + 1,
                forall|j: int| 0 <= j < i ==> ss[j].pid != pid,
            decreases k + 1 - i,
        {
            if self.sessions[i].pid == pid {
                assert(ss[i as int].pid == pid);
                return true;
            }
            i = i + 1;
        }
        false
    }

    /// The answer to `Query::Foreground`: the first argument and the working
    /// directory of the leaf process, each `None` when it could not be read.
    pub fn on_foreground(&mut self, argv0: Option<String>, cwd: Option<String>)
        requires
            old(self).wf(),
            old(self)@.awaiting is Foreground,
        ensures
            final(self).wf(),
            final(self)@ == foreground_spec(old(self)@, text_or_empty(argv0), text_or_empty(cwd)),
    {
        self.container_info = duplicate_info(&self.found);
        self.foreground_argv0 = match argv0 {
            Some(a) => a,
            None => String::new(),
        };
        self.foreground_cwd = match cwd {
            Some(c) => c,
            None => String::new(),
        };
        self.awaiting = Query::Done;
    }

    /// The lookup that the update in progress waits for.
    pub fn awaiting(&self) -> (q: Query)
        ensures
            q == self@.awaiting,
    {
        self.awaiting
    }

    pub fn container_info(&self) -> (r: Option<&ContainerInfo>)
        ensures
            r == match &self@.container_info {
                Some(ci) => Some(ci),
                None => None,
            },
    {
        self.container_info.as_ref()
    }

    pub fn foreground_argv0(&self) -> (r: &str)
        ensures
            r@ == self@.argv0,
    {
        self.foreground_argv0.as_str()
    }

    pub fn foreground_cwd(&self) -> (r: &str)
        ensures
            r@ == self@.cwd,
    {
        self.foreground_cwd.as_str()
    }

    /// The chain of sessions, from the root: `TerminalState[ S-1 S-2 ]`.
    pub fn describe(&self) -> (r: String)
        ensures
            r@ == "TerminalState["@ + sessions_text(self@.sessions) + " ]"@,
    {
        let mut r = "TerminalState[".to_owned();
        let mut i: usize = 0;
        while i < self.sessions.len()
            invariant
                0 <= i <= self.sessions@.len(),
                r@ == "TerminalState["@ + sessions_text(self.sessions@.take(i as int)),
            decreases self.sessions@.len() - i,
        {
            let ghost before = r@;
            r.append(" S-");
            let pid = i32_text(self.sessions[i].pid);
            r.append(pid.as_str());
            assert(self.sessions@.take(i as int + 1).drop_last() =~= self.sessions@.take(i as int));
            assert(r@ =~= "TerminalState["@ + sessions_text(self.sessions@.take(i as int + 1)));
            i = i + 1;
        }
        assert(self.sessions@.take(i as int) =~= self.sessions@);
        r.append(" ]");
        r
    }
}

} // verus!
