//! Discovery of other terminals on the local network by multicast announcements.
//!
//! Every terminal periodically announces itself to a multicast group and listens for the
//! announcements of the others.  This module holds the decisions of that protocol: which
//! announcements are taken in, the registry of known terminals, the stop flag, and the
//! two loops (sending and receiving) as state machines whose outside work (sockets, timers,
//! event handlers) is done by their caller.

use vstd::prelude::*;

verus! {

/// Port of the multicast group.
pub const MULTICAST_PORT: u16 = 55412;

/// Seconds between two announcements of this terminal.
pub const BROADCAST_INTERVAL_SECS: u64 = 5;

/// Upper bound on the number of remote terminals that a scan collects.
pub const MAX_REMOTE_TERMINALS: usize = 5;

/// Upper bound on the number of datagrams that one run of the receiving loop waits for.
pub const MAX_RECEIVE_ATTEMPTS: usize = 15;

/// Size of the buffer into which one announcement datagram is received.
pub const RECEIVE_BUFFER_SIZE: usize = 512;

/// An IP address: four octets for IPv4, the 128-bit big-endian value for IPv6.
#[derive(Clone, Copy, Debug, PartialEq, Eq, Structural, Hash)]
pub enum IpAddress {
    V4(u8, u8, u8, u8),
    V6(u128),
}

/// The multicast group that announcements are sent to: 226.4.55.1.
pub fn multicast_address() -> (addr: IpAddress)
    ensures
        addr == IpAddress::V4(226, 4, 55, 1),
{
    IpAddress::V4(226, 4, 55, 1)
}

/// What a terminal announces about itself.
pub struct RemoteTerminalInfo {
    /// A name chosen by the user, if any.
    pub name: Option<String>,
    pub hostname: String,
    pub os_type: String,
    pub edition: Option<String>,
    pub version: String,
}

/// The name under which a terminal is shown: its chosen name, or else `hostname-os_type`.
pub open spec fn display_name_of(info: RemoteTerminalInfo) -> Seq<char> {
    match info.name {
        Some(name) => name@,
        None => info.hostname@ + seq!['-'] + info.os_type@,
    }
}

impl RemoteTerminalInfo {
    /// The announcement of this terminal, built from what the system reports about it; no
    /// name is chosen yet.
    pub fn local(
        hostname: String,
        os_type: String,
        edition: Option<String>,
        version: String,
    ) -> (info: RemoteTerminalInfo)
        ensures
            info.name is None,
            info.hostname == hostname,
            info.os_type == os_type,
            info.edition == edition,
            info.version == version,
    {
        RemoteTerminalInfo { name: None, hostname, os_type, edition, version }
    }

    /// The name under which this terminal is shown.
    pub fn display_name(&self) -> (s: String)
        ensures
            s@ == display_name_of(*self),
            self.name matches Some(name) ==> s@ == name@,
            self.name is None ==> s@ == self.hostname@ + seq!['-'] + self.os_type@,
    {
        match &self.name {
            Some(name) => name.clone(),
            None => {
                let mut s = self.hostname.clone();
                let sep = "-";
                proof {
                    reveal_strlit("-");
                }
                s.append(sep);
                s.append(self.os_type.as_str());
                s
            },
        }
    }
}

/// What is handed to the user interface about a newly found terminal.
pub struct MulticastMessage {
    pub name: String,
    pub addr: IpAddress,
    pub os: String,
}

impl MulticastMessage {
    pub fn new(name: String, addr: IpAddress, os: String) -> (m: MulticastMessage)
        ensures
            m.name == name,
            m.addr == addr,
            m.os == os,
    {
        MulticastMessage { name, addr, os }
    }
}

/// The events that the receiving loop reports.
#[derive(Clone, Copy, Debug, PartialEq, Eq, Structural)]
pub enum ReceiveEvent {
    Start,
    Running,
    End,
}

/// The terminals found so far, each under the address its announcement came from.  No
/// address occurs twice.
///
/// The entries stand in a vector of pairs rather than a hash map: the addresses are IPv4
/// and IPv6 addresses alike, and no integer type holds all of them one to one (IPv6 alone
/// fills `u128`), while the specification of std's `HashMap` covers only keys whose hashing
/// and equality it knows, such as the integer types.  The view is the map all the same.
pub struct TerminalRegistry {
    entries: Vec<(IpAddress, RemoteTerminalInfo)>,
}

impl TerminalRegistry {
    #[verifier::type_invariant]
    spec fn keys_distinct(self) -> bool {
        forall|i: int, j: int|
            0 <= i < j < self.entries@.len() ==> (#[trigger] self.entries@[i]).0
                != (#[trigger] self.entries@[j]).0
    }

    /// The addresses of the known terminals, in the order they were found.
    pub closed spec fn addresses(self) -> Seq<IpAddress> {
        self.entries@.map_values(|e: (IpAddress, RemoteTerminalInfo)| e.0)
    }

    /// The index of the entry for `addr`.
    closed spec fn index_of_addr(self, addr: IpAddress) -> int {
        choose|i: int| 0 <= i < self.entries@.len() && self.entries@[i].0 == addr
    }

    /// The registry as a map from address to announcement.
    pub closed spec fn as_map(self) -> Map<IpAddress, RemoteTerminalInfo> {
        Map::new(
            |addr: IpAddress| self.addresses().contains(addr),
            |addr: IpAddress| self.entries@[self.index_of_addr(addr)].1,
        )
    }

    proof fn lemma_entry(self, i: int)
        requires
            self.keys_distinct(),
            0 <= i < self.entries@.len(),
        ensures
            self.as_map().dom().contains(self.entries@[i].0),
            self.as_map()[self.entries@[i].0] == self.entries@[i].1,
    {
        let addr = self.entries@[i].0;
        assert(self.addresses()[i] == addr);
        let j = self.index_of_addr(addr);
        assert(0 <= j < self.entries@.len() && self.entries@[j].0 == addr);
        if j < i {
            assert(self.entries@[j].0 != self.entries@[i].0);
        } else if i < j {
            assert(self.entries@[i].0 != self.entries@[j].0);
        }
    }

    proof fn lemma_dom(self, addr: IpAddress)
        ensures
            self.as_map().dom().contains(addr) <==> exists|i: int|
                0 <= i < self.entries@.len() && self.entries@[i].0 == addr,
    {
        if self.as_map().dom().contains(addr) {
            let i = choose|i: int| 0 <= i < self.addresses().len() && self.addresses()[i] == addr;
            assert(self.entries@[i].0 == addr);
        }
        if exists|i: int| 0 <= i < self.entries@.len() && self.entries@[i].0 == addr {
            let i = choose|i: int| 0 <= i < self.entries@.len() && self.entries@[i].0 == addr;
            assert(self.addresses()[i] == addr);
        }
    }

    proof fn lemma_len(self)
        requires
            self.keys_distinct(),
        ensures
            self.as_map().dom().finite(),
            self.as_map().dom().len() == self.entries@.len(),
    {
        let keys = self.addresses();
        assert(keys.no_duplicates()) by {
            assert forall|i: int, j: int|
                0 <= i < keys.len() && 0 <= j < keys.len() && i != j implies keys[i]
                != keys[j] by {
                if i < j {
                    assert(self.entries@[i].0 != self.entries@[j].0);
                } else {
                    assert(self.entries@[j].0 != self.entries@[i].0);
                }
            }
        }
        keys.unique_seq_to_set();
        assert(self.as_map().dom() =~= keys.to_set());
    }

    /// An empty registry.
    pub fn new() -> (r: TerminalRegistry)
        ensures
            r@ == Map::<IpAddress, RemoteTerminalInfo>::empty(),
    {
        let r = TerminalRegistry { entries: Vec::new() };
        assert(r.as_map() =~= Map::<IpAddress, RemoteTerminalInfo>::empty());
        r
    }

    /// The number of known terminals.
    pub fn len(&self) -> (n: usize)
        ensures
            self@.dom().finite(),
            n == self@.dom().len(),
    {
        proof {
            use_type_invariant(self);
            self.lemma_len();
        }
        self.entries.len()
    }

    /// Whether a terminal is known under `addr`.
    pub fn contains(&self, addr: IpAddress) -> (b: bool)
        ensures
            b == self@.dom().contains(addr),
    {
        let mut i: usize = 0;
        while i < self.entries.len()
            invariant
                i <= self.entries@.len(),
                forall|j: int| 0 <= j < i ==> self.entries@[j].0 != addr,
            decreases self.entries@.len() - i,
        {
            if self.entries[i].0 == addr {
                proof {
                    self.lemma_dom(addr);
                }
                return true;
            }
            i = i + 1;
        }
        proof {
            self.lemma_dom(addr);
        }
        false
    }

    /// Records the announcement `info` under `addr`, in place of any earlier one.
    pub fn insert(&mut self, addr: IpAddress, info: RemoteTerminalInfo)
        ensures
            final(self)@ == old(self)@.insert(addr, info),
    {
        proof {
            use_type_invariant(&*self);
        }
        let ghost before = *self;
        let mut i: usize = 0;
        while i < self.entries.len()
            invariant
                *self == before,
                i <= self.entries@.len(),
                forall|j: int| 0 <= j < i ==> self.entries@[j].0 != addr,
            ensures
                i <= self.entries@.len(),
                i < self.entries@.len() ==> self.entries@[i as int].0 == addr,
                forall|j: int| 0 <= j < i ==> self.entries@[j].0 != addr,
            decreases self.entries@.len() - i,
        {
            if self.entries[i].0 == addr {
                break;
            }
            i = i + 1;
        }
        if i < self.entries.len() {
            let ghost idx = i as int;
            assert(self.entries@[idx].0 == addr);
            let mut entries: Vec<(IpAddress, RemoteTerminalInfo)> = Vec::new();
            std::mem::swap(&mut entries, &mut self.entries);
            entries.set(i, (addr, info));
            proof {
                assert forall|a: int, b: int|
                    0 <= a < b < entries@.len() implies (#[trigger] entries@[a]).0
                    != (#[trigger] entries@[b]).0 by {
                    assert(before.entries@[a].0 != before.entries@[b].0);
                }
            }
            self.entries = entries;
            proof {
                let after = *self;
                assert(after.entries@ == before.entries@.update(idx, (addr, info)));
                assert forall|k: IpAddress| #[trigger]
                    after.as_map().dom().contains(k) == before.as_map().insert(
                        addr,
                        info,
                    ).dom().contains(k) by {
                    after.lemma_dom(k);
                    before.lemma_dom(k);
                    if exists|j: int| 0 <= j < before.entries@.len() && before.entries@[j].0 == k {
                        let j = choose|j: int|
                            0 <= j < before.entries@.len() && before.entries@[j].0 == k;
                        if j != idx {
                            assert(after.entries@[j].0 == k);
                        }
                    }
                    if exists|j: int| 0 <= j < after.entries@.len() && after.entries@[j].0 == k {
                        let j = choose|j: int|
                            0 <= j < after.entries@.len() && after.entries@[j].0 == k;
                        if j != idx {
                            assert(before.entries@[j].0 == k);
                        }
                    }
                    if k == addr {
                        assert(after.entries@[idx].0 == k);
                    }
                }
                assert forall|k: IpAddress| #[trigger] after.as_map().dom().contains(k) implies
                    after.as_map()[k] == before.as_map().insert(addr, info)[k] by {
                    after.lemma_dom(k);
                    let j = choose|j: int|
                        0 <= j < after.entries@.len() && after.entries@[j].0 == k;
                    after.lemma_entry(j);
                    if j != idx {
                        before.lemma_entry(j);
                    }
                }
                assert(after.as_map() =~= before.as_map().insert(addr, info));
            }
        } else {
            let mut entries: Vec<(IpAddress, RemoteTerminalInfo)> = Vec::new();
            std::mem::swap(&mut entries, &mut self.entries);
            entries.push((addr, info));
            proof {
                assert forall|a: int, b: int|
                    0 <= a < b < entries@.len() implies (#[trigger] entries@[a]).0
                    != (#[trigger] entries@[b]).0 by {
                    if b < before.entries@.len() {
                        assert(before.entries@[a].0 != before.entries@[b].0);
                    }
                }
            }
            self.entries = entries;
            proof {
                let after = *self;
                let n = before.entries@.len() as int;
                assert(after.entries@ == before.entries@.push((addr, info)));
                assert forall|k: IpAddress| #[trigger]
                    after.as_map().dom().contains(k) == before.as_map().insert(
                        addr,
                        info,
                    ).dom().contains(k) by {
                    after.lemma_dom(k);
                    before.lemma_dom(k);
                    if exists|j: int| 0 <= j < before.entries@.len() && before.entries@[j].0 == k {
                        let j = choose|j: int|
                            0 <= j < before.entries@.len() && before.entries@[j].0 == k;
                        assert(after.entries@[j].0 == k);
                    }
                    if k == addr {
                        assert(after.entries@[n].0 == k);
                    }
                }
                assert forall|k: IpAddress| #[trigger] after.as_map().dom().contains(k) implies
                    after.as_map()[k] == before.as_map().insert(addr, info)[k] by {
                    after.lemma_dom(k);
                    let j = choose|j: int|
                        0 <= j < after.entries@.len() && after.entries@[j].0 == k;
                    after.lemma_entry(j);
                    if j != n {
                        before.lemma_entry(j);
                    }
                }
                assert(after.as_map() =~= before.as_map().insert(addr, info));
            }
        }
    }
}

impl View for TerminalRegistry {
    type V = Map<IpAddress, RemoteTerminalInfo>;

    open spec fn view(&self) -> Map<IpAddress, RemoteTerminalInfo> {
        self.as_map()
    }
}

/// The state shared by the sending and the receiving loop: whether broadcasting should
/// stop, and the terminals found so far.
pub struct DiscoveryState {
    pub stop_requested: bool,
    pub terminals: TerminalRegistry,
}

/// What the sending loop does next.
#[derive(Clone, Copy, Debug, PartialEq, Eq, Structural)]
pub enum SendAction {
    /// Leave the loop.
    Stop,
    /// Announce this terminal to the multicast group, then wait
    /// `BROADCAST_INTERVAL_SECS` seconds.
    Announce,
}

impl DiscoveryState {
    /// Nothing found yet, broadcasting not stopped.
    pub fn new() -> (st: DiscoveryState)
        ensures
            !st.stop_requested,
            st.terminals@ == Map::<IpAddress, RemoteTerminalInfo>::empty(),
    {
        DiscoveryState { stop_requested: false, terminals: TerminalRegistry::new() }
    }

    pub fn should_stop_broadcasting(&self) -> (b: bool)
        ensures
            b == self.stop_requested,
    {
        self.stop_requested
    }

    /// Stops broadcasting: called when the receiving loop has found enough terminals, or
    /// once a connection with another terminal is made.
    pub fn stop_broadcasting(&mut self)
        ensures
            final(self).stop_requested,
            final(self).terminals@ == old(self).terminals@,
    {
        self.stop_requested = true;
    }

    /// Whether as many terminals as a scan collects are known.
    pub fn remote_terminals_count_reached(&self) -> (b: bool)
        ensures
            b == (self.terminals@.dom().len() >= MAX_REMOTE_TERMINALS),
    {
        self.terminals.len() >= MAX_REMOTE_TERMINALS
    }

    pub fn is_remote_terminal_known(&self, addr: IpAddress) -> (b: bool)
        ensures
            b == self.terminals@.dom().contains(addr),
    {
        self.terminals.contains(addr)
    }

    pub fn add_remote_terminal(&mut self, addr: IpAddress, info: RemoteTerminalInfo)
        ensures
            final(self).terminals@ == old(self).terminals@.insert(addr, info),
            final(self).stop_requested == old(self).stop_requested,
    {
        self.terminals.insert(addr, info);
    }

    /// Whether an announcement from `source` is dropped unread: it comes from this terminal
    /// (`local`) or from a terminal that is known already.
    pub fn is_ignored_source(&self, local: IpAddress, source: IpAddress) -> (b: bool)
        ensures
            b == (source == local || self.terminals@.dom().contains(source)),
    {
        source == local || self.is_remote_terminal_known(source)
    }

    /// Takes in the announcement `info` that came from `source`: the terminal is recorded,
    /// and the message for the user interface is returned.
    pub fn register_announcement(&mut self, source: IpAddress, info: RemoteTerminalInfo) -> (m:
        MulticastMessage)
        ensures
            m.name@ == display_name_of(info),
            m.addr == source,
            m.os == info.os_type,
            final(self).terminals@ == old(self).terminals@.insert(source, info),
            final(self).stop_requested == old(self).stop_requested,
    {
        let os_type = info.os_type.clone();
        let remote_string = info.display_name();
        self.add_remote_terminal(source, info);
        MulticastMessage::new(remote_string, source, os_type)
    }

    /// What the sending loop does next: it stops once broadcasting should stop.
    pub fn next_send_action(&self) -> (a: SendAction)
        ensures
            a == (if self.stop_requested {
                SendAction::Stop
            } else {
                SendAction::Announce
            }),
    {
        if self.should_stop_broadcasting() {
            SendAction::Stop
        } else {
            SendAction::Announce
        }
    }
}

/// Where a run of the receiving loop stands.
#[derive(Clone, Copy, Debug, PartialEq, Eq, Structural)]
pub enum ReceivePhase {
    /// Not started: the `Start` event is still to be reported.
    NotStarted,
    /// Listening; the number of datagrams waited for so far.
    Listening(usize),
    /// The `End` event has been reported.
    Finished,
}

/// What the receiving loop does next.
#[derive(Clone, Copy, Debug, PartialEq, Eq, Structural)]
pub enum ReceiveAction {
    /// Report `Start` or `End` to the event handler.
    Report(ReceiveEvent),
    /// Report `Running`, wait for one datagram, and hand it to the registry if one came.
    Listen,
    /// Nothing more: the run is over.
    Done,
}


/// One step of the receiving loop from `phase`, given whether broadcasting should stop and
/// whether enough terminals are known: the next phase, the action, and the stop flag after.
pub open spec fn receive_transition(phase: ReceivePhase, stop: bool, enough: bool) -> (
    ReceivePhase,
    ReceiveAction,
    bool,
) {
    match phase {
        ReceivePhase::NotStarted => (
            ReceivePhase::Listening(0),
            ReceiveAction::Report(ReceiveEvent::Start),
            stop,
        ),
        ReceivePhase::Listening(n) => if n >= MAX_RECEIVE_ATTEMPTS || stop {
            (ReceivePhase::Finished, ReceiveAction::Report(ReceiveEvent::End), stop)
        } else if enough {
            (ReceivePhase::Finished, ReceiveAction::Report(ReceiveEvent::End), true)
        } else {
            (ReceivePhase::Listening((n + 1) as usize), ReceiveAction::Listen, stop)
        },
        ReceivePhase::Finished => (ReceivePhase::Finished, ReceiveAction::Done, stop),
    }
}

/// The number of datagrams that a run waits for from `phase` on, when at each step it sees
/// the stop flag and "enough terminals known" as given in `observations`.
pub open spec fn listens_in_run(phase: ReceivePhase, observations: Seq<(bool, bool)>) -> nat
    decreases observations.len(),
{
    if observations.len() == 0 {
        0
    } else {
        let (next, action, _) = receive_transition(
            phase,
            observations[0].0,
            observations[0].1,
        );
        (if action == ReceiveAction::Listen {
            1nat
        } else {
            0nat
        }) + listens_in_run(next, observations.drop_first())
    }
}

/// The datagrams still allowed to a run in `phase`.
pub open spec fn listens_left(phase: ReceivePhase) -> int {
    match phase {
        ReceivePhase::NotStarted => MAX_RECEIVE_ATTEMPTS as int,
        ReceivePhase::Listening(n) => MAX_RECEIVE_ATTEMPTS - n,
        ReceivePhase::Finished => 0,
    }
}

proof fn lemma_listens_bounded(phase: ReceivePhase, observations: Seq<(bool, bool)>)
    requires
        phase matches ReceivePhase::Listening(n) ==> n <= MAX_RECEIVE_ATTEMPTS,
    ensures
        listens_in_run(phase, observations) <= listens_left(phase),
    decreases observations.len(),
{
    if observations.len() > 0 {
        let (next, _, _) = receive_transition(phase, observations[0].0, observations[0].1);
        lemma_listens_bounded(next, observations.drop_first());
    }
}

/// One run of the receiving loop, started afresh, waits for at most
/// `MAX_RECEIVE_ATTEMPTS` datagrams, whatever the stop flag and the registry do meanwhile.
pub proof fn law_receive_run_is_bounded(observations: Seq<(bool, bool)>)
    ensures
        listens_in_run(ReceivePhase::NotStarted, observations) <= MAX_RECEIVE_ATTEMPTS,
{
    lemma_listens_bounded(ReceivePhase::NotStarted, observations);
}

/// One run of the receiving loop.
pub struct ReceiveLoop {
    phase: ReceivePhase,
}

impl ReceiveLoop {
    #[verifier::type_invariant]
    spec fn attempts_bounded(self) -> bool {
        match self.phase {
            ReceivePhase::Listening(n) => n <= MAX_RECEIVE_ATTEMPTS,
            _ => true,
        }
    }

    pub closed spec fn phase(self) -> ReceivePhase {
        self.phase
    }

    /// A run that has not started.
    pub fn new() -> (l: ReceiveLoop)
        ensures
            l.phase() == ReceivePhase::NotStarted,
    {
        ReceiveLoop { phase: ReceivePhase::NotStarted }
    }

    /// The current phase of the run.
    pub fn current_phase(&self) -> (p: ReceivePhase)
        ensures
            p == self.phase(),
            p matches ReceivePhase::Listening(n) ==> n <= MAX_RECEIVE_ATTEMPTS,
    {
        proof {
            use_type_invariant(self);
        }
        self.phase
    }

    /// The next step of the run.  A run reports `Start`, then listens for at most
    /// `MAX_RECEIVE_ATTEMPTS` datagrams, and ends (reporting `End`) when broadcasting should
    /// stop, when enough terminals are known (then it stops broadcasting too), or when all
    /// attempts are used.  The stop flag is left alone in the last case, so that a later scan
    /// can search again.
    pub fn step(&mut self, shared: &mut DiscoveryState) -> (a: ReceiveAction)
        ensures
            final(shared).terminals@ == old(shared).terminals@,
            (final(self).phase(), a, final(shared).stop_requested) == receive_transition(
                old(self).phase(),
                old(shared).stop_requested,
                old(shared).terminals@.dom().len() >= MAX_REMOTE_TERMINALS,
            ),
            old(shared).stop_requested ==> final(shared).stop_requested,
            old(self).phase() == ReceivePhase::NotStarted ==> a == ReceiveAction::Report(
                ReceiveEvent::Start,
            ) && final(self).phase() == ReceivePhase::Listening(0),
            (old(self).phase() matches ReceivePhase::Listening(_)) && old(shared).stop_requested
                ==> a == ReceiveAction::Report(ReceiveEvent::End) && final(self).phase()
                == ReceivePhase::Finished,
            a == ReceiveAction::Listen ==> !old(shared).stop_requested
                && old(shared).terminals@.dom().len() < MAX_REMOTE_TERMINALS,
    {
        proof {
            use_type_invariant(&*self);
        }
        match self.phase {
            ReceivePhase::NotStarted => {
                self.phase = ReceivePhase::Listening(0);
                ReceiveAction::Report(ReceiveEvent::Start)
            },
            ReceivePhase::Listening(n) => {
                if n >= MAX_RECEIVE_ATTEMPTS || shared.should_stop_broadcasting() {
                    self.phase = ReceivePhase::Finished;
                    ReceiveAction::Report(ReceiveEvent::End)
                } else if shared.remote_terminals_count_reached() {
                    shared.stop_broadcasting();
                    self.phase = ReceivePhase::Finished;
                    ReceiveAction::Report(ReceiveEvent::End)
                } else {
                    self.phase = ReceivePhase::Listening(n + 1);
                    ReceiveAction::Listen
                }
            },
            ReceivePhase::Finished => ReceiveAction::Done,
        }
    }
}

/// The sources that the user interface hears of when the announcements `arrivals` come in,
/// in order, to a registry holding `terminals`, on a terminal whose own address is `local`:
/// an announcement is dropped when `is_ignored_source` says so, and taken in by
/// `register_announcement` otherwise.
pub open spec fn reported_sources(
    terminals: Map<IpAddress, RemoteTerminalInfo>,
    local: IpAddress,
    arrivals: Seq<(IpAddress, RemoteTerminalInfo)>,
) -> Seq<IpAddress>
    decreases arrivals.len(),
{
    if arrivals.len() == 0 {
        Seq::empty()
    } else {
        let source = arrivals[0].0;
        if source == local || terminals.dom().contains(source) {
            reported_sources(terminals, local, arrivals.drop_first())
        } else {
            seq![source] + reported_sources(
                terminals.insert(source, arrivals[0].1),
                local,
                arrivals.drop_first(),
            )
        }
    }
}

/// Each terminal is reported at most once: whatever announcements come in, the sources
/// reported are distinct, none of them is this terminal, and none was known before.
pub proof fn law_each_terminal_reported_once(
    terminals: Map<IpAddress, RemoteTerminalInfo>,
    local: IpAddress,
    arrivals: Seq<(IpAddress, RemoteTerminalInfo)>,
)
    ensures
        reported_sources(terminals, local, arrivals).no_duplicates(),
        forall|i: int|
            0 <= i < reported_sources(terminals, local, arrivals).len() ==> {
                let s = #[trigger] reported_sources(terminals, local, arrivals)[i];
                s != local && !terminals.dom().contains(s)
            },
    decreases arrivals.len(),
{
    if arrivals.len() > 0 {
        let source = arrivals[0].0;
        if source == local || terminals.dom().contains(source) {
            law_each_terminal_reported_once(terminals, local, arrivals.drop_first());
        } else {
            let t2 = terminals.insert(source, arrivals[0].1);
            law_each_terminal_reported_once(t2, local, arrivals.drop_first());
            let rest = reported_sources(t2, local, arrivals.drop_first());
            let all = seq![source] + rest;
            assert(reported_sources(terminals, local, arrivals) == all);
            assert forall|i: int| 0 <= i < all.len() implies {
                let s = #[trigger] all[i];
                s != local && !terminals.dom().contains(s)
            } by {
                if i > 0 {
                    assert(all[i] == rest[i - 1]);
                }
            }
            assert forall|i: int, j: int|
                0 <= i < all.len() && 0 <= j < all.len() && i != j implies all[i] != all[j] by {
                if i > 0 {
                    assert(all[i] == rest[i - 1]);
                }
                if j > 0 {
                    assert(all[j] == rest[j - 1]);
                }
            }
        }
    }
}

/// What handling one announcement does to the registry: an announcement from this
/// terminal or from a known one is dropped (`is_ignored_source`); any other is recorded
/// (`register_announcement`).
pub open spec fn handle_announcement(
    terminals: Map<IpAddress, RemoteTerminalInfo>,
    local: IpAddress,
    source: IpAddress,
    info: RemoteTerminalInfo,
) -> Map<IpAddress, RemoteTerminalInfo> {
    if source == local || terminals.dom().contains(source) {
        terminals
    } else {
        terminals.insert(source, info)
    }
}

/// The registry after the announcements `arrivals` are handled, in order.
pub open spec fn registry_after(
    terminals: Map<IpAddress, RemoteTerminalInfo>,
    local: IpAddress,
    arrivals: Seq<(IpAddress, RemoteTerminalInfo)>,
) -> Map<IpAddress, RemoteTerminalInfo>
    decreases arrivals.len(),
{
    if arrivals.len() == 0 {
        terminals
    } else {
        registry_after(
            handle_announcement(terminals, local, arrivals[0].0, arrivals[0].1),
            local,
            arrivals.drop_first(),
        )
    }
}

/// Handling announcements only adds: no known terminal is dropped and no stored
/// announcement is replaced, and the terminals added are exactly the sources reported to
/// the user interface (each once, by `law_each_terminal_reported_once`).
pub proof fn law_registry_only_grows_by_reported_terminals(
    terminals: Map<IpAddress, RemoteTerminalInfo>,
    local: IpAddress,
    arrivals: Seq<(IpAddress, RemoteTerminalInfo)>,
)
    ensures
        forall|k: IpAddress| #[trigger]
            terminals.dom().contains(k) ==> registry_after(terminals, local, arrivals).dom().contains(
                k,
            ) && registry_after(terminals, local, arrivals)[k] == terminals[k],
        registry_after(terminals, local, arrivals).dom() == terminals.dom() + reported_sources(
            terminals,
            local,
            arrivals,
        ).to_set(),
    decreases arrivals.len(),
{
    if arrivals.len() == 0 {
        assert(reported_sources(terminals, local, arrivals).to_set() =~= Set::<IpAddress>::empty());
        assert(terminals.dom() + Set::<IpAddress>::empty() =~= terminals.dom());
    } else {
        let source = arrivals[0].0;
        let t2 = handle_announcement(terminals, local, source, arrivals[0].1);
        let rest_arrivals = arrivals.drop_first();
        law_registry_only_grows_by_reported_terminals(t2, local, rest_arrivals);
        let after = registry_after(terminals, local, arrivals);
        assert(after == registry_after(t2, local, rest_arrivals));
        let rest = reported_sources(t2, local, rest_arrivals);
        assert forall|k: IpAddress| #[trigger] terminals.dom().contains(k) implies after.dom().contains(
            k,
        ) && after[k] == terminals[k] by {
            assert(t2.dom().contains(k) && t2[k] == terminals[k]);
        }
        if source == local || terminals.dom().contains(source) {
            assert(reported_sources(terminals, local, arrivals) == rest);
        } else {
            let all = seq![source] + rest;
            assert(reported_sources(terminals, local, arrivals) == all);
            assert forall|k: IpAddress| all.to_set().contains(k) == (k == source || rest.to_set().contains(k)) by {
                if rest.contains(k) {
                    let i = choose|i: int| 0 <= i < rest.len() && rest[i] == k;
                    assert(all[i + 1] == k);
                }
                if all.contains(k) {
                    let i = choose|i: int| 0 <= i < all.len() && all[i] == k;
                    if i > 0 {
                        assert(rest[i - 1] == k);
                    }
                }
                if k == source {
                    assert(all[0] == k);
                }
            }
            assert(after.dom() =~= terminals.dom() + all.to_set());
        }
    }
}

/// One step of a scan, whose state is the phase of the receiving run, the stop flag and
/// the registry.
pub open spec fn scan_step(
    state: (ReceivePhase, bool, Map<IpAddress, RemoteTerminalInfo>),
    local: IpAddress,
    input: (bool, Option<(IpAddress, RemoteTerminalInfo)>),
) -> (ReceivePhase, bool, Map<IpAddress, RemoteTerminalInfo>) {
    let stop = state.1 || input.0;
    let (phase, action, stop_after) = receive_transition(
        state.0,
        stop,
        state.2.dom().len() >= MAX_REMOTE_TERMINALS,
    );
    let terminals = if action == ReceiveAction::Listen {
        match input.1 {
            Some(arrival) => handle_announcement(state.2, local, arrival.0, arrival.1),
            None => state.2,
        }
    } else {
        state.2
    };
    (phase, stop_after, terminals)
}

/// The scan after the steps `inputs`: at each step broadcasting may be stopped from
/// elsewhere (`input.0`), the receiving run takes one step (`ReceiveLoop::step`), and when
/// that step listens, the datagram that came in, if any (`input.1`), is handled.
pub open spec fn scan_after(
    state: (ReceivePhase, bool, Map<IpAddress, RemoteTerminalInfo>),
    local: IpAddress,
    inputs: Seq<(bool, Option<(IpAddress, RemoteTerminalInfo)>)>,
) -> (ReceivePhase, bool, Map<IpAddress, RemoteTerminalInfo>)
    decreases inputs.len(),
{
    if inputs.len() == 0 {
        state
    } else {
        scan_after(scan_step(state, local, inputs[0]), local, inputs.drop_first())
    }
}

/// The registry never holds more than `MAX_REMOTE_TERMINALS` terminals while only the
/// receiving run fills it: it listens only while fewer are known, and one datagram adds at
/// most one terminal.  As the inputs are arbitrary, this holds after every step of a scan.
pub proof fn law_scan_keeps_registry_within_limit(
    state: (ReceivePhase, bool, Map<IpAddress, RemoteTerminalInfo>),
    local: IpAddress,
    inputs: Seq<(bool, Option<(IpAddress, RemoteTerminalInfo)>)>,
)
    requires
        state.2.dom().finite(),
        state.2.dom().len() <= MAX_REMOTE_TERMINALS,
    ensures
        scan_after(state, local, inputs).2.dom().finite(),
        scan_after(state, local, inputs).2.dom().len() <= MAX_REMOTE_TERMINALS,
    decreases inputs.len(),
{
    if inputs.len() > 0 {
        let next = scan_step(state, local, inputs[0]);
        let stop = state.1 || inputs[0].0;
        let (phase, action, stop_after) = receive_transition(
            state.0,
            stop,
            state.2.dom().len() >= MAX_REMOTE_TERMINALS,
        );
        if action == ReceiveAction::Listen {
            assert(state.2.dom().len() < MAX_REMOTE_TERMINALS);
            if let Some(arrival) = inputs[0].1 {
                if !(arrival.0 == local || state.2.dom().contains(arrival.0)) {
                    assert(next.2.dom() =~= state.2.dom().insert(arrival.0));
                }
            }
        }
        law_scan_keeps_registry_within_limit(next, local, inputs.drop_first());
    }
}

/// A step that sees the stop flag set while listening ends the run at once, whatever the
/// number of attempts and the registry: it reports `End` and keeps the flag set.
pub proof fn law_stop_ends_listening(n: usize, enough: bool)
    ensures
        receive_transition(ReceivePhase::Listening(n), true, enough) == (
            ReceivePhase::Finished,
            ReceiveAction::Report(ReceiveEvent::End),
            true,
        ),
{
}

/// No step of the receiving run clears the stop flag, and a step that listens sees it
/// clear and fewer than `MAX_REMOTE_TERMINALS` terminals known.
pub proof fn law_step_keeps_stop(phase: ReceivePhase, stop: bool, enough: bool)
    ensures
        stop ==> receive_transition(phase, stop, enough).2,
        receive_transition(phase, stop, enough).1 == ReceiveAction::Listen ==> !stop && !enough,
{
}

/// A run started while broadcasting is stopped reports `Start`, then `End`, and never
/// listens, whatever the registry holds.
pub proof fn law_stopped_run_never_listens(observations: Seq<(bool, bool)>)
    requires
        forall|i: int| 0 <= i < observations.len() ==> (#[trigger] observations[i]).0,
    ensures
        listens_in_run(ReceivePhase::NotStarted, observations) == 0,
        observations.len() >= 2 ==> {
            let first = receive_transition(
                ReceivePhase::NotStarted,
                observations[0].0,
                observations[0].1,
            );
            let second = receive_transition(first.0, observations[1].0, observations[1].1);
            &&& first.1 == ReceiveAction::Report(ReceiveEvent::Start)
            &&& second.1 == ReceiveAction::Report(ReceiveEvent::End)
            &&& second.0 == ReceivePhase::Finished
        },
{
    if observations.len() > 0 {
        let rest = observations.drop_first();
        assert(observations[0].0);
        assert(listens_in_run(ReceivePhase::NotStarted, observations) == listens_in_run(
            ReceivePhase::Listening(0),
            rest,
        ));
        if rest.len() > 0 {
            assert(rest[0] == observations[1]);
            assert(rest[0].0);
            lemma_finished_never_listens(rest.drop_first());
            assert(listens_in_run(ReceivePhase::Listening(0), rest) == listens_in_run(
                ReceivePhase::Finished,
                rest.drop_first(),
            ));
        }
    }
}

proof fn lemma_finished_never_listens(observations: Seq<(bool, bool)>)
    ensures
        listens_in_run(ReceivePhase::Finished, observations) == 0,
    decreases observations.len(),
{
    if observations.len() > 0 {
        lemma_finished_never_listens(observations.drop_first());
    }
}

/// With no chosen name, a terminal is shown as its hostname, a dash and its OS type, and
/// neither edition nor version changes that; a chosen name is shown as it is.
pub proof fn law_display_name(info: RemoteTerminalInfo, other: RemoteTerminalInfo)
    ensures
        info.name is None ==> display_name_of(info).len() == info.hostname@.len() + 1
            + info.os_type@.len() && display_name_of(info).take(info.hostname@.len() as int)
            == info.hostname@ && display_name_of(info)[info.hostname@.len() as int] == '-'
            && display_name_of(info).skip(info.hostname@.len() as int + 1) == info.os_type@,
        info.name matches Some(n) ==> display_name_of(info) == n@,
        other.name == info.name && other.hostname == info.hostname && other.os_type
            == info.os_type ==> display_name_of(other) == display_name_of(info),
{
    if info.name is None {
        let d = display_name_of(info);
        let h = info.hostname@;
        assert(d.take(h.len() as int) =~= h);
        assert(d.skip(h.len() as int + 1) =~= info.os_type@);
    }
}

} // verus!
