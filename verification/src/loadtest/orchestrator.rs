//! The orchestrator: the workers that are connected, and the commands that they are
//! driven with.
use crate::loadtest::protocol::{ToOrchestrator, ToWorker, WorkerMetrics};
use crate::slabs;
use crate::tables;
use crate::text;
use ahash::AHashMap;
use slab::Slab;
use vstd::prelude::*;
use vstd::string::StringExecFns;

verus! {

#[derive(Debug)]
pub struct OrchestratorConfig {
    pub bind: String,
}

/// A worker that is connected.
#[derive(Debug)]
pub struct Worker {
    pub worker_id: String,
    pub addr: String,
    pub last_metrics: Option<WorkerMetrics>,
    pub last_seen: u64,
}

/// The workers that are connected. No two have the same name.
pub struct Registry {
    workers: Slab<Worker>,
    by_id: AHashMap<String, u64>,
}

#[verifier::ext_equal]
pub struct RegistryView {
    pub workers: Map<usize, Worker>,
    pub by_id: Map<Seq<char>, u64>,
    pub next: usize,
}

impl View for Registry {
    type V = RegistryView;

    closed spec fn view(&self) -> RegistryView {
        RegistryView {
            workers: slabs::workers(self.workers),
            by_id: tables::names(self.by_id),
            next: slabs::next_worker(self.workers),
        }
    }
}

/// What workers counted together.
#[derive(Debug, Clone, Copy, PartialEq, Eq, Structural)]
pub struct Aggregate {
    pub alive: u32,
    pub auth_ok: u64,
    pub auth_fail: u64,
    pub world_ok: u64,
    pub world_fail: u64,
    pub messages_in: u64,
    pub messages_out: u64,
    pub send_errors: u64,
}

pub open spec fn no_aggregate() -> Aggregate {
    Aggregate {
        alive: 0,
        auth_ok: 0,
        auth_fail: 0,
        world_ok: 0,
        world_fail: 0,
        messages_in: 0,
        messages_out: 0,
        send_errors: 0,
    }
}

pub open spec fn capped32(a: u32, b: u32) -> u32 {
    if a + b > u32::MAX {
        u32::MAX
    } else {
        (a + b) as u32
    }
}

pub open spec fn capped(a: u64, b: u64) -> u64 {
    if a + b > u64::MAX {
        u64::MAX
    } else {
        (a + b) as u64
    }
}

impl Aggregate {
    /// With what another worker counted. No sum goes past its largest number.
    pub open spec fn plus(self, m: Option<WorkerMetrics>) -> Aggregate {
        match m {
            Some(m) => Aggregate {
                alive: capped32(self.alive, m.bots_alive),
                auth_ok: capped(self.auth_ok, m.auth_ok),
                auth_fail: capped(self.auth_fail, m.auth_fail),
                world_ok: capped(self.world_ok, m.world_ok),
                world_fail: capped(self.world_fail, m.world_fail),
                messages_in: capped(self.messages_in, m.messages_in),
                messages_out: capped(self.messages_out, m.messages_out),
                send_errors: capped(self.send_errors, m.send_errors),
            },
            None => self,
        }
    }
}

/// What the workers under `keys` counted together.
pub open spec fn aggregated(workers: Map<usize, Worker>, keys: Seq<usize>) -> Aggregate
    decreases keys.len(),
{
    if keys.len() == 0 {
        no_aggregate()
    } else {
        aggregated(workers, keys.drop_last()).plus(workers[keys.last()].last_metrics)
    }
}

impl RegistryView {
    /// Every name leads to the worker that has it, and every worker is found by its
    /// name.
    pub open spec fn in_step(self) -> bool {
        &&& forall|id: Seq<char>| #[trigger]
            self.by_id.contains_key(id) ==> self.by_id[id] <= usize::MAX && self.workers.contains_key(
                self.by_id[id] as usize,
            ) && self.workers[self.by_id[id] as usize].worker_id@ == id
        &&& forall|k: usize| #[trigger]
            self.workers.contains_key(k) ==> self.by_id.contains_key(self.workers[k].worker_id@)
                && self.by_id[self.workers[k].worker_id@] == k
    }

    /// The workers without the one that has a name.
    pub open spec fn without(self, id: Seq<char>) -> Map<usize, Worker> {
        if self.by_id.contains_key(id) {
            self.workers.remove(self.by_id[id] as usize)
        } else {
            self.workers
        }
    }

    /// The key that a worker of that name gets: that of its predecessor, if there is
    /// one.
    pub open spec fn key_for(self, id: Seq<char>) -> usize {
        if self.by_id.contains_key(id) && self.workers.contains_key(self.by_id[id] as usize) {
            self.by_id[id] as usize
        } else {
            self.next
        }
    }
}

impl Registry {
    pub closed spec fn wf(&self) -> bool {
        self@.in_step()
    }

    pub fn new() -> (r: Self)
        ensures
            r.wf(),
            r@ == (RegistryView { workers: Map::empty(), by_id: Map::empty(), next: 0 }),
    {
        let r = Registry { workers: slabs::workers_new(), by_id: tables::names_new() };
        assert(r@ =~= (RegistryView { workers: Map::empty(), by_id: Map::empty(), next: 0 }));
        r
    }

    /// Take in a worker. One that had the same name is dropped.
    pub fn insert(&mut self, w: Worker) -> (key: usize)
        requires
            old(self).wf(),
        ensures
            final(self).wf(),
            final(self)@.in_step(),
            key == old(self)@.key_for(w.worker_id@),
            !old(self)@.without(w.worker_id@).contains_key(key),
            final(self)@.workers == old(self)@.without(w.worker_id@).insert(key, w),
            final(self)@.by_id == old(self)@.by_id.insert(w.worker_id@, key as u64),
    {
        let id = w.worker_id.clone();
        if let Some(existing) = tables::names_get(&self.by_id, id.as_str()) {
            slabs::workers_remove(&mut self.workers, existing as usize);
        }
        let ghost mid = self@;
        let key: usize = slabs::workers_insert(&mut self.workers, w);
        tables::names_insert(&mut self.by_id, id, key as u64);
        assert(self@.in_step()) by {
            assert(mid.workers == old(self)@.without(id@));
            assert(self@.workers == mid.workers.insert(key, w));
            assert(self@.by_id == old(self)@.by_id.insert(id@, key as u64));
            assert forall|other: Seq<char>| #[trigger] self@.by_id.contains_key(other) implies self@.by_id[other]
                <= usize::MAX && self@.workers.contains_key(self@.by_id[other] as usize)
                && self@.workers[self@.by_id[other] as usize].worker_id@ == other by {
                if other != id@ {
                    assert(old(self)@.by_id.contains_key(other));
                    if old(self)@.by_id.contains_key(id@) {
                        assert(old(self)@.by_id[other] != old(self)@.by_id[id@]);
                    }
                    assert(mid.workers.contains_key(old(self)@.by_id[other] as usize));
                }
            }
            assert forall|k: usize| #[trigger] self@.workers.contains_key(k) implies self@.by_id.contains_key(
                self@.workers[k].worker_id@,
            ) && self@.by_id[self@.workers[k].worker_id@] == k by {
                if k != key {
                    assert(old(self)@.workers.contains_key(k));
                }
            }
        }
        key
    }

    /// Let go of the worker under `key`.
    pub fn remove(&mut self, key: usize)
        requires
            old(self).wf(),
        ensures
            final(self).wf(),
            final(self)@.in_step(),
            final(self)@.workers == old(self)@.workers.remove(key),
            final(self)@.by_id == (if old(self)@.workers.contains_key(key) {
                old(self)@.by_id.remove(old(self)@.workers[key].worker_id@)
            } else {
                old(self)@.by_id
            }),
    {
        let gone = slabs::workers_remove(&mut self.workers, key);
        if let Some(w) = gone {
            tables::names_remove(&mut self.by_id, w.worker_id.as_str());
        }
        assert(self@.in_step()) by {
            assert forall|id: Seq<char>| #[trigger] self@.by_id.contains_key(id) implies self@.by_id[id]
                <= usize::MAX && self@.workers.contains_key(self@.by_id[id] as usize) && self@.workers[self@.by_id[id] as usize].worker_id@
                == id by {
                assert(old(self)@.by_id.contains_key(id));
            }
            assert forall|k: usize| #[trigger] self@.workers.contains_key(k) implies self@.by_id.contains_key(
                self@.workers[k].worker_id@,
            ) && self@.by_id[self@.workers[k].worker_id@] == k by {
                assert(old(self)@.workers.contains_key(k));
            }
        }
    }

    /// What the worker under `key` says. Whether it is listened to further: not after
    /// it has drained.
    pub fn receive(&mut self, key: usize, msg: ToOrchestrator, now: u64) -> (r: bool)
        requires
            old(self).wf(),
        ensures
            final(self).wf(),
            r == !(msg is Drained),
            final(self)@.by_id == old(self)@.by_id,
            final(self)@.workers == (match msg {
                ToOrchestrator::Metrics(m) => if old(self)@.workers.contains_key(key) {
                    old(self)@.workers.insert(
                        key,
                        (Worker { last_metrics: Some(m), last_seen: now, ..old(self)@.workers[key] }),
                    )
                } else {
                    old(self)@.workers
                },
                _ => old(self)@.workers,
            }),
    {
        match msg {
            ToOrchestrator::Metrics(m) => {
                if let Some(w) = slabs::workers_get_mut(&mut self.workers, key) {
                    w.last_metrics = Some(m);
                    w.last_seen = now;
                }
                assert(self@.in_step()) by {
                    assert forall|id: Seq<char>| #[trigger] self@.by_id.contains_key(id) implies self@.by_id[id]
                        <= usize::MAX && self@.workers.contains_key(self@.by_id[id] as usize)
                        && self@.workers[self@.by_id[id] as usize].worker_id@ == id by {
                        assert(old(self)@.by_id.contains_key(id));
                    }
                    assert forall|k: usize| #[trigger] self@.workers.contains_key(k) implies self@.by_id.contains_key(
                        self@.workers[k].worker_id@,
                    ) && self@.by_id[self@.workers[k].worker_id@] == k by {
                        assert(old(self)@.workers.contains_key(k));
                    }
                }
                true
            },
            ToOrchestrator::Drained => false,
            ToOrchestrator::Hello { .. } => true,
        }
    }

    /// How many workers there are and what they counted together.
    pub fn aggregate(&self) -> (r: (usize, Aggregate))
        ensures
            r.0 == slabs::ordered(self@.workers.dom()).len(),
            r.1 == aggregated(self@.workers, slabs::ordered(self@.workers.dom())),
            slabs::in_order(slabs::ordered(self@.workers.dom()), self@.workers.dom()),
    {
        let keys = slabs::workers_keys(&self.workers);
        proof {
            slabs::ordered_is(keys@, self@.workers.dom());
        }
        let mut r = Aggregate {
            alive: 0,
            auth_ok: 0,
            auth_fail: 0,
            world_ok: 0,
            world_fail: 0,
            messages_in: 0,
            messages_out: 0,
            send_errors: 0,
        };
        let mut i: usize = 0;
        assert(keys@.take(0) =~= Seq::<usize>::empty());
        while i < keys.len()
            invariant
                i <= keys@.len(),
                slabs::in_order(keys@, self@.workers.dom()),
                r == aggregated(self@.workers, keys@.take(i as int)),
            decreases keys.len() - i,
        {
            let key: usize = keys[i];
            assert(keys@.contains(key));
            proof {
                assert(keys@.take(i + 1).drop_last() =~= keys@.take(i as int));
            }
            if let Some(w) = slabs::workers_get(&self.workers, key) {
                if let Some(m) = &w.last_metrics {
                    r = Aggregate {
                        alive: r.alive.saturating_add(m.bots_alive),
                        auth_ok: r.auth_ok.saturating_add(m.auth_ok),
                        auth_fail: r.auth_fail.saturating_add(m.auth_fail),
                        world_ok: r.world_ok.saturating_add(m.world_ok),
                        world_fail: r.world_fail.saturating_add(m.world_fail),
                        messages_in: r.messages_in.saturating_add(m.messages_in),
                        messages_out: r.messages_out.saturating_add(m.messages_out),
                        send_errors: r.send_errors.saturating_add(m.send_errors),
                    };
                }
            }
            i += 1;
        }
        assert(keys@.take(i as int) =~= keys@);
        (keys.len(), r)
    }

    /// The workers by the order of their keys.
    pub fn keys(&self) -> (r: Vec<usize>)
        ensures
            slabs::in_order(r@, self@.workers.dom()),
    {
        slabs::workers_keys(&self.workers)
    }

    pub fn get(&self, key: usize) -> (r: Option<&Worker>)
        ensures
            r == (if self@.workers.contains_key(key) {
                Some(&self@.workers[key])
            } else {
                None
            }),
    {
        slabs::workers_get(&self.workers, key)
    }
}

/// The name that a worker gives in its first message; without one it is turned
/// away.
pub fn greeting(msg: ToOrchestrator) -> (r: Option<String>)
    ensures
        r == (match msg {
            ToOrchestrator::Hello { worker_id, .. } => Some(worker_id),
            _ => None,
        }),
{
    match msg {
        ToOrchestrator::Hello { worker_id, .. } => Some(worker_id),
        _ => None,
    }
}

/// A line of the console.
#[derive(Debug)]
pub enum ReplCommand {
    Nothing,
    Tell { what: ToWorker },
    SpawnUsage,
    StopUsage,
    Status,
    Unknown { command: String },
}

/// The number that a command is given: the word behind it, and 0 where that is none.
pub open spec fn number_given(words: Seq<Seq<char>>) -> int {
    if words.len() >= 2 {
        match text::unsigned(words[1], u32::MAX as int) {
            Some(n) => n,
            None => 0,
        }
    } else {
        0
    }
}

/// Whether `r` is what the line with those words asks for.
pub open spec fn asks_for(r: ReplCommand, words: Seq<Seq<char>>) -> bool {
    if words.len() == 0 {
        r is Nothing
    } else if words[0] == "spawn"@ {
        if number_given(words) == 0 {
            r is SpawnUsage
        } else {
            r == (ReplCommand::Tell { what: ToWorker::Spawn { count: number_given(words) as u32 } })
        }
    } else if words[0] == "stop"@ {
        if number_given(words) == 0 {
            r is StopUsage
        } else {
            r == (ReplCommand::Tell { what: ToWorker::Stop { count: number_given(words) as u32 } })
        }
    } else if words[0] == "status"@ {
        r is Status
    } else if words[0] == "quit"@ {
        r == (ReplCommand::Tell { what: ToWorker::Drain })
    } else {
        r matches ReplCommand::Unknown { command } && command@ == words[0]
    }
}

fn read_number(words: &Vec<Vec<char>>) -> (r: u32)
    ensures
        r == number_given(text::texts(words@)),
{
    if words.len() >= 2 {
        assert(text::texts(words@)[1] == words@[1]@);
        match text::parse_unsigned(&words[1], 0xffff_ffff) {
            Some(n) => n as u32,
            None => 0,
        }
    } else {
        0
    }
}

/// Understand a line of the console.
pub fn parse_line(line: &str) -> (r: ReplCommand)
    ensures
        asks_for(r, text::words(line@)),
{
    let words = text::split_whitespace(&text::chars_of(line));
    if words.len() == 0 {
        return ReplCommand::Nothing;
    }
    assert(text::texts(words@)[0] == words@[0]@);
    let command = text::from_chars(&words[0]);
    let n: u32 = read_number(&words);
    proof {
        reveal_strlit("spawn");
        reveal_strlit("stop");
        reveal_strlit("status");
        reveal_strlit("quit");
    }
    if text::same(command.as_str(), "spawn") {
        if n == 0 {
            ReplCommand::SpawnUsage
        } else {
            ReplCommand::Tell { what: ToWorker::Spawn { count: n } }
        }
    } else if text::same(command.as_str(), "stop") {
        if n == 0 {
            ReplCommand::StopUsage
        } else {
            ReplCommand::Tell { what: ToWorker::Stop { count: n } }
        }
    } else if text::same(command.as_str(), "status") {
        ReplCommand::Status
    } else if text::same(command.as_str(), "quit") {
        ReplCommand::Tell { what: ToWorker::Drain }
    } else {
        ReplCommand::Unknown { command }
    }
}

/// What the console answers, after every worker was told. A status is answered with
/// the workers.
pub open spec fn answer_to(r: ReplCommand) -> Seq<char> {
    match r {
        ReplCommand::Nothing => Seq::empty(),
        ReplCommand::Status => Seq::empty(),
        ReplCommand::SpawnUsage => "usage: spawn <N>"@,
        ReplCommand::StopUsage => "usage: stop <N>"@,
        ReplCommand::Unknown { command } => "unknown command: "@ + command@,
        ReplCommand::Tell { what } => match what {
            ToWorker::Spawn { count } => "sent spawn "@ + text::decimal(count as nat) + " to all workers"@,
            ToWorker::Stop { count } => "sent stop "@ + text::decimal(count as nat) + " to all workers"@,
            ToWorker::Drain => "draining all workers"@,
        },
    }
}

pub fn answer(r: &ReplCommand) -> (s: String)
    ensures
        s@ == answer_to(*r),
{
    match r {
        ReplCommand::Nothing => String::new(),
        ReplCommand::Status => String::new(),
        ReplCommand::SpawnUsage => "usage: spawn <N>".to_string(),
        ReplCommand::StopUsage => "usage: stop <N>".to_string(),
        ReplCommand::Unknown { command } => {
            let mut s = "unknown command: ".to_string();
            s.append(command.as_str());
            s
        },
        ReplCommand::Tell { what } => match *what {
            ToWorker::Spawn { count } => text::join3(
                "sent spawn ",
                text::to_decimal(count as u64).as_str(),
                " to all workers",
            ),
            ToWorker::Stop { count } => text::join3(
                "sent stop ",
                text::to_decimal(count as u64).as_str(),
                " to all workers",
            ),
            ToWorker::Drain => "draining all workers".to_string(),
        },
    }
}

/// A worker that connects again under its name takes the place of the one before: no
/// two workers have the same name.
pub proof fn names_are_unique(r: RegistryView, a: usize, b: usize)
    requires
        r.in_step(),
        r.workers.contains_key(a),
        r.workers.contains_key(b),
        r.workers[a].worker_id@ == r.workers[b].worker_id@,
    ensures
        a == b,
{
}

/// A worker that is taken in is found under its key, alone under its name; a worker that is
/// let go of is found no more; and others stay.
pub proof fn workers_come_and_go(a: &mut Registry, w: Worker, key: usize, b: &mut Registry, gone: usize, u: (), k: usize)
    requires
        old(a).wf(),
        old(b).wf(),
        old(a)@.in_step(),
        call_ensures(Registry::insert, (a, w), key),
        call_ensures(Registry::remove, (b, gone), u),
    ensures
        final(a)@.workers.contains_key(key) && final(a)@.workers[key] == w,
        final(a)@.by_id.contains_key(w.worker_id@) && final(a)@.by_id[w.worker_id@] == key,
        old(a)@.workers.contains_key(k) && old(a)@.workers[k].worker_id@ != w.worker_id@ ==> final(a)@.workers.contains_key(k) && final(a)@.workers[k] == old(a)@.workers[k],
        final(a)@.workers.contains_key(k) && k != key ==> final(a)@.workers[k].worker_id@ != w.worker_id@,
        !final(b)@.workers.contains_key(gone),
        k != gone && old(b)@.workers.contains_key(k) ==> final(b)@.workers.contains_key(k) && final(b)@.workers[k]
            == old(b)@.workers[k],
{
    if final(a)@.workers.contains_key(k) && k != key && final(a)@.workers[k].worker_id@ == w.worker_id@ {
        names_are_unique(final(a)@, k, key);
    }
}

/// What a worker counted last is kept, with the time, and only a worker that has drained is
/// not listened to further.
pub proof fn the_last_metrics_are_kept(a: &mut Registry, key: usize, msg: ToOrchestrator, now: u64, r: bool, k: usize)
    requires
        old(a).wf(),
        call_ensures(Registry::receive, (a, key, msg, now), r),
    ensures
        r <==> !(msg is Drained),
        msg is Metrics && old(a)@.workers.contains_key(key) ==> final(a)@.workers[key].last_metrics == Some(
            msg->Metrics_0,
        ) && final(a)@.workers[key].last_seen == now && final(a)@.workers[key].worker_id
            == old(a)@.workers[key].worker_id,
        k != key || !(msg is Metrics) ==> final(a)@.workers[k] == old(a)@.workers[k],
        final(a)@.workers.dom() =~= old(a)@.workers.dom(),
{
}

proof fn lemma_same_workers(a: Map<usize, Worker>, b: Map<usize, Worker>, keys: Seq<usize>)
    requires
        forall|i: int| 0 <= i < keys.len() ==> a[#[trigger] keys[i]] == b[keys[i]],
    ensures
        aggregated(a, keys) == aggregated(b, keys),
    decreases keys.len(),
{
    if keys.len() > 0 {
        let init = keys.drop_last();
        assert forall|i: int| 0 <= i < init.len() implies a[#[trigger] init[i]] == b[init[i]] by {
            assert(init[i] == keys[i]);
        }
        lemma_same_workers(a, b, init);
        assert(a[keys[keys.len() - 1]] == b[keys[keys.len() - 1]]);
    }
}

/// One more worker is one more, and what it counted is added to what the others did, as far
/// as the sum can be held; without workers nothing is counted.
pub proof fn one_more_worker_adds_up(
    a: &Registry,
    was: (usize, Aggregate),
    b: &Registry,
    r: (usize, Aggregate),
    key: usize,
    m: WorkerMetrics,
)
    requires
        call_ensures(Registry::aggregate, (a,), was),
        call_ensures(Registry::aggregate, (b,), r),
        slabs::ordered(b@.workers.dom()) == slabs::ordered(a@.workers.dom()).push(key),
        forall|k: usize| #[trigger] a@.workers.contains_key(k) ==> b@.workers[k] == a@.workers[k],
    ensures
        r.0 == was.0 + 1,
        b@.workers[key].last_metrics is None ==> r.1 == was.1,
        b@.workers[key].last_metrics == Some(m) ==> {
            &&& was.1.alive + m.bots_alive <= u32::MAX ==> r.1.alive == was.1.alive + m.bots_alive
            &&& was.1.auth_ok + m.auth_ok <= u64::MAX ==> r.1.auth_ok == was.1.auth_ok + m.auth_ok
            &&& was.1.auth_fail + m.auth_fail <= u64::MAX ==> r.1.auth_fail == was.1.auth_fail + m.auth_fail
            &&& was.1.world_ok + m.world_ok <= u64::MAX ==> r.1.world_ok == was.1.world_ok + m.world_ok
            &&& was.1.world_fail + m.world_fail <= u64::MAX ==> r.1.world_fail == was.1.world_fail + m.world_fail
            &&& was.1.messages_in + m.messages_in <= u64::MAX ==> r.1.messages_in == was.1.messages_in + m.messages_in
            &&& was.1.messages_out + m.messages_out <= u64::MAX ==> r.1.messages_out == was.1.messages_out
                + m.messages_out
            &&& was.1.send_errors + m.send_errors <= u64::MAX ==> r.1.send_errors == was.1.send_errors + m.send_errors
        },
        was.0 == 0 ==> was.1.alive == 0 && was.1.auth_ok == 0 && was.1.auth_fail == 0 && was.1.world_ok == 0
            && was.1.world_fail == 0 && was.1.messages_in == 0 && was.1.messages_out == 0 && was.1.send_errors == 0,
{
    let ka = slabs::ordered(a@.workers.dom());
    let kb = slabs::ordered(b@.workers.dom());
    assert(kb.drop_last() =~= ka);
    assert(kb.last() == key);
    assert forall|i: int| 0 <= i < ka.len() implies a@.workers[#[trigger] ka[i]] == b@.workers[ka[i]] by {
        assert(ka.contains(ka[i]));
        assert(a@.workers.contains_key(ka[i]));
    }
    lemma_same_workers(a@.workers, b@.workers, ka);
}

/// `spawn` and `stop` with a number tell the workers so, and without one say how they are
/// used; `status` asks for the workers, `quit` drains them, and anything else is not known.
pub proof fn lines_are_understood(line: &str, r: ReplCommand, n: u32)
    requires
        call_ensures(parse_line, (line,), r),
    ensures
        ({
            let w = text::words(line@);
            let given = w.len() >= 2 && text::unsigned(w[1], u32::MAX as int) == Some(n as int) && n > 0;
            &&& w.len() == 0 ==> r is Nothing
            &&& w.len() > 0 && w[0] == "spawn"@ && given ==> r == (ReplCommand::Tell {
                what: ToWorker::Spawn { count: n },
            })
            &&& w.len() == 1 && w[0] == "spawn"@ ==> r is SpawnUsage
            &&& w.len() > 0 && w[0] == "stop"@ && given ==> r == (ReplCommand::Tell {
                what: ToWorker::Stop { count: n },
            })
            &&& w.len() == 1 && w[0] == "stop"@ ==> r is StopUsage
            &&& w.len() > 0 && w[0] == "status"@ ==> r is Status
            &&& w.len() > 0 && w[0] == "quit"@ ==> r == (ReplCommand::Tell { what: ToWorker::Drain })
            &&& w.len() > 0 && w[0] != "spawn"@ && w[0] != "stop"@ && w[0] != "status"@ && w[0] != "quit"@
                ==> r is Unknown && r->command@ == w[0]
        }),
{
    reveal_strlit("spawn");
    reveal_strlit("stop");
    reveal_strlit("status");
    reveal_strlit("quit");
    assert("spawn"@.len() != "stop"@.len() && "spawn"@.len() != "status"@.len() && "spawn"@.len() != "quit"@.len());
    assert("stop"@.len() != "status"@.len() && "status"@.len() != "quit"@.len());
    assert("stop"@[0] != "quit"@[0]);
}

/// A worker is known by the name in its greeting, and turned away without one. The console
/// says what was sent, how commands are used, and what is not known.
pub proof fn the_console_answers(msg: ToOrchestrator, name: Option<String>, c: &ReplCommand, s: String, n: u32)
    requires
        call_ensures(greeting, (msg,), name),
        call_ensures(answer, (c,), s),
    ensures
        msg is Hello ==> name == Some(msg->worker_id),
        !(msg is Hello) ==> name is None,
        *c is SpawnUsage ==> s@ == "usage: spawn <N>"@,
        *c is StopUsage ==> s@ == "usage: stop <N>"@,
        *c is Nothing || *c is Status ==> s@.len() == 0,
        *c is Unknown ==> s@ == "unknown command: "@ + c->command@,
        *c == (ReplCommand::Tell { what: ToWorker::Spawn { count: n } }) ==> s@ == "sent spawn "@ + text::decimal(
            n as nat,
        ) + " to all workers"@,
        *c == (ReplCommand::Tell { what: ToWorker::Stop { count: n } }) ==> s@ == "sent stop "@ + text::decimal(n as nat)
            + " to all workers"@,
        *c == (ReplCommand::Tell { what: ToWorker::Drain }) ==> s@ == "draining all workers"@,
{
}

} // verus!
