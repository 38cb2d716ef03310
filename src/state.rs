use vstd::prelude::*;

verus! {

/// Lifecycle of an agent.
#[derive(Clone, Copy, Debug, PartialEq, Eq, Structural)]
pub enum ClankerStatus {
    Running,
    Waiting,
    Merged,
    Deleted,
}

/// A copy of `v`.
pub fn copy_bytes(v: &Vec<u8>) -> (r: Vec<u8>)
    ensures
        r@ == v@,
{
    let mut r: Vec<u8> = Vec::with_capacity(v.len());
    let mut i: usize = 0;
    while i < v.len()
        invariant
            i <= v.len(),
            r@ == v@.subrange(0, i as int),
        decreases v.len() - i,
    {
        r.push(v[i]);
        i = i + 1;
    }
    assert(r@ =~= v@);
    r
}

/// One agent of a project.
///
/// `backend` is true while a backend request channel is open for the agent;
/// the channel itself belongs to the runtime, which finds it by `port`.
/// `history` holds the agent's event payloads (JSON text, as bytes) in the
/// order in which they were ingested.
#[derive(Debug)]
pub struct ClankerState {
    pub status: ClankerStatus,
    pub port: Option<u16>,
    pub backend: bool,
    pub history: Vec<Vec<u8>>,
}

/// What an agent record holds, as plain values.
pub struct ClankerView {
    pub status: ClankerStatus,
    pub port: Option<u16>,
    pub backend: bool,
    pub history: Seq<Seq<u8>>,
}

impl View for ClankerState {
    type V = ClankerView;

    open spec fn view(&self) -> ClankerView {
        ClankerView {
            status: self.status,
            port: self.port,
            backend: self.backend,
            history: self.history@.map_values(|e: Vec<u8>| e@),
        }
    }
}

/// The view of an agent that was just created.
pub open spec fn fresh_clanker() -> ClankerView {
    ClankerView { status: ClankerStatus::Waiting, port: None, backend: false, history: Seq::empty() }
}

impl ClankerState {
    /// A backend channel is only ever open for an agent that has a port.
    pub open spec fn wf(&self) -> bool {
        self.backend ==> self.port.is_some()
    }

    pub fn new() -> (r: Self)
        ensures
            r@ == fresh_clanker(),
            r.wf(),
    {
        let r = ClankerState {
            status: ClankerStatus::Waiting,
            port: None,
            backend: false,
            history: Vec::new(),
        };
        assert(r@.history =~= Seq::<Seq<u8>>::empty());
        r
    }

    /// A copy of the record, history included.
    pub fn snapshot(&self) -> (r: Self)
        ensures
            r@ == self@,
    {
        let mut history: Vec<Vec<u8>> = Vec::new();
        let mut i: usize = 0;
        while i < self.history.len()
            invariant
                i <= self.history.len(),
                history@.len() == i,
                forall|j: int| 0 <= j < i ==> (#[trigger] history@[j])@ == self.history@[j]@,
            decreases self.history.len() - i,
        {
            history.push(copy_bytes(&self.history[i]));
            i = i + 1;
        }
        assert(history@.map_values(|e: Vec<u8>| e@) =~= self.history@.map_values(|e: Vec<u8>| e@));
        ClankerState { status: self.status, port: self.port, backend: self.backend, history }
    }
}

/// The agents of one project, where an agent's id is its position.
#[derive(Debug)]
pub struct ProjectState {
    pub clankers: Vec<ClankerState>,
}

impl View for ProjectState {
    type V = Seq<ClankerView>;

    open spec fn view(&self) -> Seq<ClankerView> {
        self.clankers@.map_values(|c: ClankerState| c@)
    }
}

impl ProjectState {
    pub open spec fn wf(&self) -> bool {
        forall|i: int| 0 <= i < self.clankers@.len() ==> (#[trigger] self.clankers@[i]).wf()
    }

    pub fn new() -> (r: Self)
        ensures
            r@ == Seq::<ClankerView>::empty(),
            r.wf(),
    {
        ProjectState { clankers: Vec::new() }
    }

    /// The agent with id `id`, created in state Waiting when `id` is the
    /// next free id.
    pub fn get_or_create_clanker(&mut self, id: u32) -> (r: &mut ClankerState)
        requires
            id as int <= old(self).clankers.len(),
        ensures
            id < old(self).clankers.len() ==> *r == old(self).clankers@[id as int],
            id == old(self).clankers.len() ==> r@ == fresh_clanker() && r.wf(),
            final(self).clankers@ == (if id < old(self).clankers.len() {
                old(self).clankers@
            } else {
                old(self).clankers@.push(*r)
            }).update(id as int, *final(r)),
    {
        if (id as usize) == self.clankers.len() {
            self.clankers.push(ClankerState::new());
        }
        &mut self.clankers[id as usize]
    }

    /// A copy of the project, every agent's history included.
    pub fn snapshot(&self) -> (r: Self)
        ensures
            r@ == self@,
            self.wf() ==> r.wf(),
    {
        let mut clankers: Vec<ClankerState> = Vec::new();
        let mut i: usize = 0;
        while i < self.clankers.len()
            invariant
                i <= self.clankers.len(),
                clankers@.len() == i,
                forall|j: int| 0 <= j < i ==> (#[trigger] clankers@[j])@ == self.clankers@[j]@,
                forall|j: int| 0 <= j < i ==> (#[trigger] clankers@[j]).wf() == self.clankers@[j].wf(),
            decreases self.clankers.len() - i,
        {
            clankers.push(self.clankers[i].snapshot());
            i = i + 1;
        }
        let r = ProjectState { clankers };
        assert(r@ =~= self@);
        r
    }
}

} // verus!

verus! {

/// A project and its name.
#[derive(Debug)]
pub struct ProjectEntry {
    pub name: String,
    pub state: ProjectState,
}

/// Every project that the daemon knows, each name at most once.
#[derive(Debug)]
pub struct State {
    pub projects: Vec<ProjectEntry>,
}

impl State {
    pub open spec fn has(&self, name: Seq<char>) -> bool {
        exists|i: int| 0 <= i < self.projects@.len() && (#[trigger] self.projects@[i]).name@ == name
    }

    pub open spec fn index_of(&self, name: Seq<char>) -> int {
        choose|i: int| 0 <= i < self.projects@.len() && (#[trigger] self.projects@[i]).name@ == name
    }

    pub open spec fn wf(&self) -> bool {
        &&& forall|i: int, j: int|
            0 <= i < j < self.projects@.len() ==> (#[trigger] self.projects@[i]).name@
                != (#[trigger] self.projects@[j]).name@
        &&& forall|i: int| 0 <= i < self.projects@.len() ==> (#[trigger] self.projects@[i]).state.wf()
    }

    /// A project, as the agents that it holds.
    pub open spec fn project(&self, name: Seq<char>) -> Seq<ClankerView> {
        if self.has(name) {
            self.projects@[self.index_of(name)].state@
        } else {
            Seq::empty()
        }
    }

    /// The state as a map from project name to its agents.
    pub open spec fn model(&self) -> Map<Seq<char>, Seq<ClankerView>> {
        Map::new(|n: Seq<char>| self.has(n), |n: Seq<char>| self.project(n))
    }

    pub proof fn lemma_index_of(&self, i: int)
        requires
            self.wf(),
            0 <= i < self.projects@.len(),
        ensures
            self.has(self.projects@[i].name@),
            self.index_of(self.projects@[i].name@) == i,
            self.project(self.projects@[i].name@) == self.projects@[i].state@,
    {
        let n = self.projects@[i].name@;
        assert(self.has(n));
        let k = self.index_of(n);
        if k < i {
            assert(self.projects@[k].name@ != self.projects@[i].name@);
        } else if k > i {
            assert(self.projects@[i].name@ != self.projects@[k].name@);
        }
    }

    pub fn new() -> (r: Self)
        ensures
            r.wf(),
            r.model() == Map::<Seq<char>, Seq<ClankerView>>::empty(),
    {
        let r = State { projects: Vec::new() };
        assert(r.model() =~= Map::<Seq<char>, Seq<ClankerView>>::empty());
        r
    }

    /// The position of the project named `name`, if there is one.
    pub fn find_project(&self, name: &String) -> (r: Option<usize>)
        requires
            self.wf(),
        ensures
            r.is_none() == !self.has(name@),
            r.is_some() ==> r.unwrap() < self.projects.len() && r.unwrap() == self.index_of(
                name@,
            ),
    {
        let mut i: usize = 0;
        while i < self.projects.len()
            invariant
                self.wf(),
                i <= self.projects.len(),
                forall|j: int| 0 <= j < i ==> (#[trigger] self.projects@[j]).name@ != name@,
            decreases self.projects.len() - i,
        {
            if self.projects[i].name == *name {
                proof {
                    self.lemma_index_of(i as int);
                }
                return Some(i);
            }
            i = i + 1;
        }
        None
    }

    /// The position of the project named `name`, created empty if it was
    /// unknown.
    pub fn get_or_create_project(&mut self, name: &String) -> (r: usize)
        requires
            old(self).wf(),
        ensures
            final(self).wf(),
            r < final(self).projects.len(),
            final(self).projects@[r as int].name@ == name@,
            final(self).model() == (if old(self).has(name@) {
                old(self).model()
            } else {
                old(self).model().insert(name@, Seq::empty())
            }),
            old(self).has(name@) ==> final(self).projects@ == old(self).projects@,
            !old(self).has(name@) ==> final(self).projects@.len() == old(self).projects@.len() + 1
                && final(self).projects@.drop_last() == old(self).projects@,
    {
        match self.find_project(name) {
            Some(i) => i,
            None => {
                let ghost before = *self;
                self.projects.push(ProjectEntry { name: name.clone(), state: ProjectState::new() });
                let r = self.projects.len() - 1;
                proof {
                    assert(self.projects@.drop_last() =~= before.projects@);
                    assert forall|i: int, j: int|
                        0 <= i < j < self.projects@.len() implies (#[trigger] self.projects@[i]).name@
                        != (#[trigger] self.projects@[j]).name@ by {
                        if j == r {
                            assert(before.projects@[i] == self.projects@[i]);
                        }
                    }
                    assert(self.wf());
                    assert forall|n: Seq<char>| #[trigger] self.has(n) == (before.has(n) || n == name@) by {
                        if before.has(n) {
                            let k = before.index_of(n);
                            assert(self.projects@[k] == before.projects@[k]);
                        }
                        if self.has(n) && n != name@ {
                            let k = self.index_of(n);
                            assert(k != r);
                            assert(before.projects@[k] == self.projects@[k]);
                        }
                        if n == name@ {
                            assert(self.projects@[r as int].name@ == n);
                        }
                    }
                    assert forall|n: Seq<char>| #[trigger] self.has(n) implies self.project(n) == (if n == name@ { Seq::<ClankerView>::empty() } else { before.project(n) }) by {
                        let k = self.index_of(n);
                        self.lemma_index_of(k);
                        if n != name@ {
                            assert(k != r);
                            assert(before.projects@[k] == self.projects@[k]);
                            assert(before.wf());
                            before.lemma_index_of(k);
                        } else {
                            self.lemma_index_of(r as int);
                            assert(self.projects@[r as int].state@ =~= Seq::<ClankerView>::empty());
                        }
                    }
                    assert(self.model() =~= before.model().insert(name@, Seq::empty()));
                }
                r
            }
        }
    }
}

} // verus!

verus! {

/// The backend port of agent `id` in `agents`, where a backend channel is open.
pub open spec fn backend_of(agents: Seq<ClankerView>, id: u32) -> Option<u16> {
    if id < agents.len() && agents[id as int].backend {
        agents[id as int].port
    } else {
        None
    }
}

/// The view of an agent whose backend was just launched on `port`.
pub open spec fn running_clanker(port: u16) -> ClankerView {
    ClankerView { status: ClankerStatus::Running, port: Some(port), backend: true, history: Seq::empty() }
}

/// `agents` after `event` was appended to the history of agent `id`, which is
/// created when `id` is the next free id; agents further on are not created.
pub open spec fn appended(agents: Seq<ClankerView>, id: u32, event: Seq<u8>) -> Seq<ClankerView> {
    if id < agents.len() {
        let c = agents[id as int];
        agents.update(
            id as int,
            ClankerView { status: c.status, port: c.port, backend: c.backend, history: c.history.push(event) },
        )
    } else if id == agents.len() {
        agents.push(
            ClankerView {
                status: ClankerStatus::Waiting,
                port: None,
                backend: false,
                history: seq![event],
            },
        )
    } else {
        agents
    }
}

impl State {
    /// Changing the agents of the project at position `k` changes the model
    /// at that project's name alone.
    proof fn lemma_replace(old_s: &State, new_s: &State, k: int)
        requires
            old_s.wf(),
            new_s.wf(),
            0 <= k < old_s.projects@.len(),
            new_s.projects@.len() == old_s.projects@.len(),
            forall|i: int|
                0 <= i < old_s.projects@.len() ==> (#[trigger] new_s.projects@[i]).name@
                    == old_s.projects@[i].name@,
            forall|i: int|
                0 <= i < old_s.projects@.len() && i != k ==> (#[trigger] new_s.projects@[i]).state@
                    == old_s.projects@[i].state@,
        ensures
            new_s.model() == old_s.model().insert(old_s.projects@[k].name@, new_s.projects@[k].state@),
    {
        let nk = old_s.projects@[k].name@;
        assert forall|n: Seq<char>| #[trigger] new_s.has(n) == old_s.has(n) by {
            if old_s.has(n) {
                let j = old_s.index_of(n);
                assert(new_s.projects@[j].name@ == n);
            }
            if new_s.has(n) {
                let j = new_s.index_of(n);
                assert(old_s.projects@[j].name@ == n);
            }
        }
        assert forall|n: Seq<char>| #[trigger] new_s.has(n) implies new_s.project(n) == (if n == nk {
            new_s.projects@[k].state@
        } else {
            old_s.project(n)
        }) by {
            let j = new_s.index_of(n);
            new_s.lemma_index_of(j);
            old_s.lemma_index_of(j);
            new_s.lemma_index_of(k);
        }
        assert(new_s.model() =~= old_s.model().insert(nk, new_s.projects@[k].state@));
    }

    /// Creating a project leaves what the model says of its name unchanged,
    /// and changes nothing when it already existed.
    proof fn lemma_created(before: &State, after: &State, name: Seq<char>)
        requires
            after.has(name),
            after.model() == (if before.has(name) {
                before.model()
            } else {
                before.model().insert(name, Seq::empty())
            }),
        ensures
            after.project(name) == before.project(name),
            after.model().insert(name, after.project(name)) == before.model().insert(name, before.project(name)),
            before.project(name).len() > 0 ==> after.model() == before.model(),
    {
        assert(after.model().dom().contains(name));
        assert(after.model()[name] == after.project(name));
        if before.has(name) {
            assert(before.model()[name] == before.project(name));
        }
    }

    /// A copy of the project named `name`, empty when there is none.
    pub fn snapshot(&self, name: &String) -> (r: ProjectState)
        requires
            self.wf(),
        ensures
            r@ == self.project(name@),
            r.wf(),
    {
        match self.find_project(name) {
            Some(i) => {
                proof {
                    self.lemma_index_of(i as int);
                }
                self.projects[i].state.snapshot()
            },
            None => ProjectState::new(),
        }
    }

    /// The port of the live backend of agent `id` in project `name`.
    pub fn lookup_backend(&self, name: &String, id: u32) -> (r: Option<u16>)
        requires
            self.wf(),
        ensures
            r == backend_of(self.project(name@), id),
    {
        match self.find_project(name) {
            Some(i) => {
                proof {
                    self.lemma_index_of(i as int);
                }
                let clankers = &self.projects[i].state.clankers;
                if (id as usize) < clankers.len() && clankers[id as usize].backend {
                    clankers[id as usize].port
                } else {
                    None
                }
            },
            None => None,
        }
    }

    /// Registers a new agent in project `name` (created if unknown), running
    /// a backend on `port`; its id is the number of agents the project had.
    /// Gives `None`, and changes nothing, when the project has no id left.
    pub fn start_clanker(&mut self, name: &String, port: u16) -> (r: Option<u32>)
        requires
            old(self).wf(),
        ensures
            final(self).wf(),
            old(self).project(name@).len() < u32::MAX ==> r == Some(
                old(self).project(name@).len() as u32,
            ) && final(self).model() == old(self).model().insert(
                name@,
                old(self).project(name@).push(running_clanker(port)),
            ),
            old(self).project(name@).len() >= u32::MAX ==> r.is_none() && final(self).model()
                == old(self).model(),
    {
        let ghost before = *self;
        let k = self.get_or_create_project(name);
        let ghost mid = *self;
        proof {
            mid.lemma_index_of(k as int);
            State::lemma_created(&before, &mid, name@);
        }
        let n = self.projects[k].state.clankers.len();
        if n >= u32::MAX as usize {
            return None;
        }
        let id = n as u32;
        let mut entry = self.projects.remove(k);
        let c = entry.state.get_or_create_clanker(id);
        c.port = Some(port);
        c.backend = true;
        c.status = ClankerStatus::Running;
        self.projects.insert(k, entry);
        proof {
            assert(self.projects@ =~= mid.projects@.update(k as int, entry));
            assert(entry.state@ =~= mid.projects@[k as int].state@.push(running_clanker(port)));
            assert forall|i: int, j: int|
                0 <= i < j < self.projects@.len() implies (#[trigger] self.projects@[i]).name@
                != (#[trigger] self.projects@[j]).name@ by {
                assert(mid.projects@[i].name@ == self.projects@[i].name@);
                assert(mid.projects@[j].name@ == self.projects@[j].name@);
            }
            assert forall|i: int| 0 <= i < self.projects@.len() implies (#[trigger] self.projects@[i]).state.wf() by {
                if i == k {
                    assert forall|j: int| 0 <= j < entry.state.clankers@.len() implies (#[trigger] entry.state.clankers@[j]).wf() by {
                        if j < n {
                            assert(entry.state.clankers@[j] == mid.projects@[k as int].state.clankers@[j]);
                        }
                    }
                }
            }
            State::lemma_replace(&mid, self, k as int);
        }
        Some(id)
    }

    /// Appends `event` to the history of agent `id` of project `name`; the
    /// project is created if unknown, the agent if `id` is its next free id.
    /// Returns whether the event was stored.
    pub fn append_history(&mut self, name: &String, id: u32, event: Vec<u8>) -> (r: bool)
        requires
            old(self).wf(),
        ensures
            final(self).wf(),
            r == (id <= old(self).project(name@).len()),
            final(self).model() == old(self).model().insert(
                name@,
                appended(old(self).project(name@), id, event@),
            ),
    {
        let ghost before = *self;
        let k = self.get_or_create_project(name);
        let ghost mid = *self;
        proof {
            mid.lemma_index_of(k as int);
            State::lemma_created(&before, &mid, name@);
        }
        let n = self.projects[k].state.clankers.len();
        if (id as usize) > n {
            proof {
                assert(appended(mid.project(name@), id, event@) == mid.project(name@));
                assert(mid.model().insert(name@, mid.project(name@)) =~= mid.model());
            }
            return false;
        }
        let mut entry = self.projects.remove(k);
        let ghost e0 = entry;
        let c = entry.state.get_or_create_clanker(id);
        c.history.push(event);
        self.projects.insert(k, entry);
        proof {
            assert(self.projects@ =~= mid.projects@.update(k as int, entry));
            let newc = entry.state.clankers@[id as int];
            if (id as int) < n {
                let oc = e0.state.clankers@[id as int];
                assert(newc.history@.map_values(|e: Vec<u8>| e@) =~= oc.history@.map_values(
                    |e: Vec<u8>| e@,
                ).push(event@));
            } else {
                assert(newc.history@.map_values(|e: Vec<u8>| e@) =~= seq![event@]);
            }
            assert(entry.state@ =~= appended(e0.state@, id, event@));
            assert forall|i: int, j: int|
                0 <= i < j < self.projects@.len() implies (#[trigger] self.projects@[i]).name@
                != (#[trigger] self.projects@[j]).name@ by {
                assert(mid.projects@[i].name@ == self.projects@[i].name@);
                assert(mid.projects@[j].name@ == self.projects@[j].name@);
            }
            assert forall|i: int| 0 <= i < self.projects@.len() implies (#[trigger] self.projects@[i]).state.wf() by {
                if i == k {
                    assert forall|j: int| 0 <= j < entry.state.clankers@.len() implies (#[trigger] entry.state.clankers@[j]).wf() by {
                        if j != id {
                            assert(entry.state.clankers@[j] == e0.state.clankers@[j]);
                        }
                    }
                }
            }
            State::lemma_replace(&mid, self, k as int);
        }
        true
    }
}

impl Default for State {
    fn default() -> (r: Self)
        ensures
            r.wf(),
            r.model() == Map::<Seq<char>, Seq<ClankerView>>::empty(),
    {
        State::new()
    }
}

} // verus!
