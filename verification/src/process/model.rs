use vstd::prelude::*;

verus! {

/// A process as the kernel tells it apart: its PID and its start time, so a
/// reused PID is a different process.
#[derive(Debug, Clone, Copy, PartialEq, Eq, Hash, Structural)]
pub struct ProcessIdentity {
    pub pid: i32,
    pub start_time_ticks: u64,
}

/// Physical memory totals.
#[derive(Debug, Clone, Copy, Default, PartialEq, Eq)]
pub struct MemorySnapshot {
    pub total_bytes: u64,
    pub available_bytes: u64,
}

impl MemorySnapshot {
    /// Memory in use: the total minus what is available, never below zero.
    pub fn used_bytes(self) -> (r: u64)
        ensures
            r == if self.total_bytes >= self.available_bytes {
                (self.total_bytes - self.available_bytes) as u64
            } else {
                0u64
            },
    {
        self.total_bytes.saturating_sub(self.available_bytes)
    }
}

} // verus!

verus! {

/// GPU use attributed to one process. The device reports utilization in
/// whole percent, and that is what is kept.
#[derive(Debug, Clone, Copy, Default, PartialEq, Eq)]
pub struct ProcessGpuUsage {
    pub gpu_index: Option<u32>,
    pub vram_bytes: Option<u64>,
    pub utilization_percent: Option<u32>,
}

/// The few environment variables the inspector keeps (ROS identity and
/// workspace prefixes). A later entry for a key replaces an earlier one.
///
/// The entries are (name, value) pairs in a `Vec`, seen through `env_map`:
/// vstd states `BTreeMap` only for keys known to obey `Ord`'s
/// specification, which vstd does not establish for `String`, so a
/// `BTreeMap<String, String>` would leave every lookup unproved.
#[derive(Debug, Clone, Default, PartialEq, Eq)]
pub struct LimitedEnvironment {
    entries: Vec<(String, String)>,
}

pub open spec fn env_map(entries: Seq<(String, String)>) -> Map<Seq<char>, Seq<char>>
    decreases entries.len(),
{
    if entries.len() == 0 {
        Map::empty()
    } else {
        env_map(entries.drop_last()).insert(entries.last().0@, entries.last().1@)
    }
}

impl View for LimitedEnvironment {
    type V = Map<Seq<char>, Seq<char>>;

    closed spec fn view(&self) -> Map<Seq<char>, Seq<char>> {
        env_map(self.entries@)
    }
}

impl LimitedEnvironment {
    pub fn new() -> (r: Self)
        ensures
            r@ == Map::<Seq<char>, Seq<char>>::empty(),
    {
        LimitedEnvironment { entries: Vec::new() }
    }

    pub fn insert(&mut self, key: String, value: String)
        ensures
            final(self)@ == old(self)@.insert(key@, value@),
    {
        self.entries.push((key, value));
        proof {
            assert(self.entries@.drop_last() == old(self).entries@);
        }
    }

    /// The value of a key.
    pub fn get(&self, key: &str) -> (r: Option<&String>)
        ensures
            match r {
                Some(v) => self@.contains_key(key@) && v@ == self@[key@],
                None => !self@.contains_key(key@),
            },
    {
        let k = crate::text::chars_of(key);
        let mut i: usize = self.entries.len();
        proof {
            lemma_env_split(self.entries@, i as int);
            assert(self.entries@.skip(i as int) =~= Seq::<(String, String)>::empty());
            assert(env_map(Seq::<(String, String)>::empty()) =~= Map::<Seq<char>, Seq<char>>::empty());
        }
        while i > 0
            invariant
                i <= self.entries.len(),
                k@ == key@,
                env_map(self.entries@) == env_map(self.entries@.take(i as int)).union_prefer_right(
                    env_map(self.entries@.skip(i as int)),
                ),
                !env_map(self.entries@.skip(i as int)).contains_key(key@),
            decreases i,
        {
            let entry = &self.entries[i - 1];
            let ek = crate::text::chars_of(entry.0.as_str());
            proof {
                let es = self.entries@;
                assert(es.take(i as int).drop_last() == es.take(i - 1));
                assert(es.take(i as int).last() == es[i - 1]);
                lemma_env_split(es, i - 1);
            }
            if crate::text::chars_eq(&ek, &k) {
                return Some(&entry.1);
            }
            proof {
                let es = self.entries@;
                let tail = es.skip(i - 1);
                lemma_env_split(tail, 1);
                assert(tail.take(1) =~= seq![es[i - 1]]);
                assert(tail.skip(1) =~= es.skip(i as int));
                assert(seq![es[i - 1]].drop_last() =~= Seq::<(String, String)>::empty());
                assert(env_map(Seq::<(String, String)>::empty()) =~= Map::<Seq<char>, Seq<char>>::empty());
                assert(!env_map(seq![es[i - 1]]).contains_key(key@));
            }
            i = i - 1;
        }
        proof {
            assert(self.entries@.take(0) =~= Seq::<(String, String)>::empty());
            assert(env_map(Seq::<(String, String)>::empty()) =~= Map::<Seq<char>, Seq<char>>::empty());
        }
        None
    }

    /// A copy with the same entries.
    pub fn duplicate(&self) -> (r: Self)
        ensures
            r@ == self@,
    {
        let mut entries: Vec<(String, String)> = Vec::new();
        let mut i: usize = 0;
        while i < self.entries.len()
            invariant
                i <= self.entries@.len(),
                entries@ == self.entries@.take(i as int),
            decreases self.entries.len() - i,
        {
            let e = &self.entries[i];
            entries.push((e.0.clone(), e.1.clone()));
            assert(self.entries@.take(i + 1) =~= self.entries@.take(i as int).push(self.entries@[i as int]));
            i = i + 1;
        }
        assert(self.entries@.take(i as int) =~= self.entries@);
        LimitedEnvironment { entries }
    }

    pub fn contains_key(&self, key: &str) -> (r: bool)
        ensures
            r == self@.contains_key(key@),
    {
        self.get(key).is_some()
    }
}

/// The map of all entries is the map of the first `k` overridden by the rest.
pub proof fn lemma_env_split(es: Seq<(String, String)>, k: int)
    requires
        0 <= k <= es.len(),
    ensures
        env_map(es) == env_map(es.take(k)).union_prefer_right(env_map(es.skip(k))),
    decreases es.len() - k,
{
    if k == es.len() {
        assert(es.take(k) == es);
        assert(es.skip(k) =~= Seq::<(String, String)>::empty());
        assert(env_map(es).union_prefer_right(Map::<Seq<char>, Seq<char>>::empty()) =~= env_map(es));
    } else {
        lemma_env_split(es.drop_last(), k);
        assert(es.drop_last().take(k) == es.take(k));
        assert(es.skip(k).drop_last() == es.drop_last().skip(k));
        assert(es.skip(k).last() == es.last());
        assert(env_map(es) =~= env_map(es.take(k)).union_prefer_right(env_map(es.skip(k))));
    }
}

} // verus!

verus! {

/// One sampled process.
#[derive(Debug, Clone, PartialEq, Eq)]
pub struct ProcessSnapshot {
    pub identity: ProcessIdentity,
    pub pid: i32,
    pub ppid: i32,
    pub name: String,
    pub executable: Option<String>,
    pub cwd: Option<String>,
    pub command: Vec<String>,
    pub cgroup: Vec<String>,
    pub environment: LimitedEnvironment,
    /// The sampled CPU percentage as `f32::to_bits` gives it; the library
    /// carries it through and never reads it.
    pub cpu_percent_bits: u32,
    pub memory_bytes: u64,
    pub gpu: Option<ProcessGpuUsage>,
}

pub open spec fn string_views(v: Seq<String>) -> Seq<Seq<char>> {
    v.map_values(|x: String| x@)
}

/// Pieces joined with a separator between each two.
pub open spec fn join_with(parts: Seq<Seq<char>>, sep: char) -> Seq<char>
    decreases parts.len(),
{
    if parts.len() == 0 {
        Seq::<char>::empty()
    } else if parts.len() == 1 {
        parts[0]
    } else {
        join_with(parts.drop_last(), sep).push(sep) + parts.last()
    }
}

/// The command line a process shows: its arguments joined by spaces, or its
/// name when it has none.
pub open spec fn command_line_model(name: Seq<char>, command: Seq<Seq<char>>) -> Seq<char> {
    if command.len() == 0 {
        name
    } else {
        join_with(command, ' ')
    }
}

/// Joins strings with a separator character.
pub fn join_strings(parts: &Vec<String>, sep: char) -> (r: Vec<char>)
    ensures
        r@ == join_with(string_views(parts@), sep),
{
    let mut r: Vec<char> = Vec::new();
    let mut i: usize = 0;
    while i < parts.len()
        invariant
            i <= parts.len(),
            r@ == join_with(string_views(parts@).take(i as int), sep),
        decreases parts.len() - i,
    {
        let p = crate::text::chars_of(parts[i].as_str());
        proof {
            let ps = string_views(parts@);
            assert(ps.take(i + 1).drop_last() == ps.take(i as int));
            assert(ps.take(i + 1).last() == p@);
        }
        if i > 0 {
            r.push(sep);
        } else {
            proof {
                assert(r@ =~= Seq::<char>::empty());
            }
        }
        crate::text::push_all(&mut r, &p);
        proof {
            if i == 0 {
                assert(r@ =~= p@);
            }
        }
        i = i + 1;
    }
    proof {
        assert(string_views(parts@).take(i as int) == string_views(parts@));
    }
    r
}

/// Two snapshots that hold the same values, field by field (texts and lists
/// compared by content).
pub open spec fn same_snapshot(a: ProcessSnapshot, b: ProcessSnapshot) -> bool {
    &&& a.identity == b.identity
    &&& a.pid == b.pid
    &&& a.ppid == b.ppid
    &&& a.name@ == b.name@
    &&& crate::process::resolver::opt_view(a.executable) == crate::process::resolver::opt_view(b.executable)
    &&& crate::process::resolver::opt_view(a.cwd) == crate::process::resolver::opt_view(b.cwd)
    &&& string_views(a.command@) == string_views(b.command@)
    &&& string_views(a.cgroup@) == string_views(b.cgroup@)
    &&& a.environment@ == b.environment@
    &&& a.cpu_percent_bits == b.cpu_percent_bits
    &&& a.memory_bytes == b.memory_bytes
    &&& a.gpu == b.gpu
}

fn duplicate_text(o: &Option<String>) -> (r: Option<String>)
    ensures
        crate::process::resolver::opt_view(r) == crate::process::resolver::opt_view(*o),
{
    match o {
        Some(s) => Some(s.clone()),
        None => None,
    }
}

fn duplicate_texts(v: &Vec<String>) -> (r: Vec<String>)
    ensures
        r@ == v@,
{
    let mut r: Vec<String> = Vec::new();
    let mut i: usize = 0;
    while i < v.len()
        invariant
            i <= v@.len(),
            r@ == v@.take(i as int),
        decreases v.len() - i,
    {
        r.push(v[i].clone());
        assert(v@.take(i + 1) =~= v@.take(i as int).push(v@[i as int]));
        i = i + 1;
    }
    assert(v@.take(i as int) =~= v@);
    r
}

impl ProcessSnapshot {
    /// A copy holding the same values.
    pub fn duplicate(&self) -> (r: Self)
        ensures
            same_snapshot(r, *self),
    {
        ProcessSnapshot {
            identity: self.identity,
            pid: self.pid,
            ppid: self.ppid,
            name: self.name.clone(),
            executable: duplicate_text(&self.executable),
            cwd: duplicate_text(&self.cwd),
            command: duplicate_texts(&self.command),
            cgroup: duplicate_texts(&self.cgroup),
            environment: self.environment.duplicate(),
            cpu_percent_bits: self.cpu_percent_bits,
            memory_bytes: self.memory_bytes,
            gpu: self.gpu,
        }
    }

    pub fn command_line(&self) -> (r: String)
        ensures
            r@ == command_line_model(self.name@, string_views(self.command@)),
    {
        if self.command.len() == 0 {
            self.name.clone()
        } else {
            let v = join_strings(&self.command, ' ');
            crate::text::string_of(&v)
        }
    }
}

} // verus!
