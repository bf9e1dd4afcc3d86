//! The module store: maps a module path to its compiled form, compiling on
//! first access and serving the cached artifact afterwards. Artifacts live
//! for the process lifetime; there is no eviction, since the route table
//! fixes the key space at startup. A compilation failure is permanent for
//! its path: later lookups return the same error without repeating the work.
//!
//! Concurrent first requests for one path are coordinated through the
//! `InFlight` entry state: a caller that finds no entry claims the path
//! (`begin_compile` answers `true` exactly once per path), compiles, and
//! publishes the result with `finish_compile`; every other caller awaits
//! that entry instead of compiling. The store itself is a sequential value;
//! the surrounding server guards it with a lock around the two narrow state
//! transitions, never around compilation itself.

use vstd::prelude::*;

verus! {

/// A compiled module: the ready-to-instantiate artifact derived from the
/// bytes found at a module path.
pub struct CompiledModule {
    pub path: String,
    pub code: Vec<u8>,
}

/// The mathematical value of a `CompiledModule`.
pub ghost struct CompiledModuleV {
    pub path: Seq<char>,
    pub code: Seq<u8>,
}

impl View for CompiledModule {
    type V = CompiledModuleV;

    open spec fn view(&self) -> CompiledModuleV {
        CompiledModuleV { path: self.path@, code: self.code@ }
    }
}

fn clone_bytes(b: &Vec<u8>) -> (r: Vec<u8>)
    ensures
        r@ == b@,
{
    let n = b.len();
    let mut r: Vec<u8> = Vec::new();
    let mut i: usize = 0;
    while i < n
        invariant
            n == b@.len(),
            i <= n,
            r@ == b@.take(i as int),
        decreases n - i,
    {
        r.push(b[i]);
        proof {
            assert(r@ =~= b@.take(i + 1));
        }
        i += 1;
    }
    proof {
        assert(b@.take(n as int) =~= b@);
    }
    r
}

pub fn clone_module(m: &CompiledModule) -> (r: CompiledModule)
    ensures
        r@ == m@,
{
    CompiledModule { path: m.path.clone(), code: clone_bytes(&m.code) }
}

/// Why compiling a module's bytes failed; permanent for that path.
#[derive(Clone, Copy, PartialEq, Eq, Structural, Debug)]
pub enum CompileError {
    /// The bytes are not a module: the magic header is absent or truncated.
    MalformedModule,
    /// The container version is one this server does not run.
    UnsupportedVersion,
}

/// The module container opens with the magic bytes `\0asm`.
pub open spec fn spec_has_wasm_magic(b: Seq<u8>) -> bool {
    b.len() >= 8 && b[0] == 0x00u8 && b[1] == 0x61u8 && b[2] == 0x73u8 && b[3] == 0x6du8
}

/// After the magic comes the binary-format version, little-endian 1.
pub open spec fn spec_has_supported_version(b: Seq<u8>) -> bool {
    b.len() >= 8 && b[4] == 0x01u8 && b[5] == 0x00u8 && b[6] == 0x00u8 && b[7] == 0x00u8
}

/// Derives the compiled artifact from a module's bytes: the container
/// header is validated, and the artifact records the path and the bytes.
pub fn compile_module(path: &String, bytes: &Vec<u8>) -> (r: Result<CompiledModule, CompileError>)
    ensures
        (r is Ok) == (spec_has_wasm_magic(bytes@) && spec_has_supported_version(bytes@)),
        r is Ok ==> r->Ok_0@.path == path@ && r->Ok_0@.code == bytes@,
        r is Err ==> ((r->Err_0 == CompileError::MalformedModule) == !spec_has_wasm_magic(
            bytes@,
        )),
{
    if bytes.len() < 8 {
        return Err(CompileError::MalformedModule);
    }
    if bytes[0] != 0x00u8 || bytes[1] != 0x61u8 || bytes[2] != 0x73u8 || bytes[3] != 0x6du8 {
        return Err(CompileError::MalformedModule);
    }
    if bytes[4] != 0x01u8 || bytes[5] != 0x00u8 || bytes[6] != 0x00u8 || bytes[7] != 0x00u8 {
        return Err(CompileError::UnsupportedVersion);
    }
    Ok(CompiledModule { path: path.clone(), code: clone_bytes(bytes) })
}

/// The state of one cache entry.
pub enum ModuleState {
    /// A caller has claimed the path and its compilation is under way.
    InFlight,
    /// Compilation succeeded; the artifact is served from here on.
    Ready(CompiledModule),
    /// Compilation failed; the error is served from here on.
    Failed(CompileError),
}

/// The mathematical value of a `ModuleState`.
pub ghost enum ModuleStateV {
    InFlight,
    Ready(CompiledModuleV),
    Failed(CompileError),
}

impl View for ModuleState {
    type V = ModuleStateV;

    open spec fn view(&self) -> ModuleStateV {
        match self {
            ModuleState::InFlight => ModuleStateV::InFlight,
            ModuleState::Ready(m) => ModuleStateV::Ready(m@),
            ModuleState::Failed(e) => ModuleStateV::Failed(*e),
        }
    }
}

fn clone_state(s: &ModuleState) -> (r: ModuleState)
    ensures
        r@ == s@,
{
    match s {
        ModuleState::InFlight => ModuleState::InFlight,
        ModuleState::Ready(m) => ModuleState::Ready(clone_module(m)),
        ModuleState::Failed(e) => ModuleState::Failed(*e),
    }
}

/// The first entry with key `p`, if any.
pub open spec fn spec_find(entries: Seq<(String, ModuleState)>, p: Seq<char>) -> Option<
    ModuleStateV,
>
    decreases entries.len(),
{
    if entries.len() == 0 {
        None
    } else if entries[0].0@ == p {
        Some(entries[0].1@)
    } else {
        spec_find(entries.drop_first(), p)
    }
}

pub open spec fn spec_unique_keys(entries: Seq<(String, ModuleState)>) -> bool {
    forall|i: int, j: int|
        0 <= i < j < entries.len() ==> entries[i].0@ != entries[j].0@
}

proof fn lemma_find_none(entries: Seq<(String, ModuleState)>, p: Seq<char>)
    ensures
        (spec_find(entries, p) is None) == (forall|i: int|
            0 <= i < entries.len() ==> entries[i].0@ != p),
    decreases entries.len(),
{
    if entries.len() != 0 {
        lemma_find_none(entries.drop_first(), p);
        assert(forall|i: int|
            0 <= i < entries.drop_first().len() ==> entries.drop_first()[i] == entries[i + 1]);
        if entries[0].0@ != p && spec_find(entries, p) is None {
            assert forall|i: int| 0 <= i < entries.len() implies entries[i].0@ != p by {
                if i >= 1 {
                    assert(entries.drop_first()[i - 1].0@ != p);
                }
            };
        }
    }
}

proof fn lemma_find_push(entries: Seq<(String, ModuleState)>, e: (String, ModuleState), p: Seq<char>)
    ensures
        spec_find(entries.push(e), p) == if spec_find(entries, p) is Some {
            spec_find(entries, p)
        } else if p == e.0@ {
            Some(e.1@)
        } else {
            None::<ModuleStateV>
        },
    decreases entries.len(),
{
    if entries.len() == 0 {
        assert(entries.push(e)[0] == e);
        assert(entries.push(e).drop_first() =~= Seq::<(String, ModuleState)>::empty());
        assert(spec_find(entries.push(e).drop_first(), p) is None);
        assert(spec_find(entries, p) is None);
        if p == e.0@ {
            assert(entries.push(e)[0].0@ == p);
            assert(spec_find(entries.push(e), p) == Some(e.1@));
        } else {
            assert(spec_find(entries.push(e), p) is None);
        }
    } else {
        let d = entries.drop_first();
        assert(entries.push(e)[0] == entries[0]);
        assert(entries.push(e).drop_first() =~= d.push(e));
        lemma_find_push(d, e, p);
        if entries[0].0@ == p {
            assert(spec_find(entries.push(e), p) == Some(entries[0].1@));
            assert(spec_find(entries, p) == Some(entries[0].1@));
        } else {
            assert(spec_find(entries.push(e), p) == spec_find(d.push(e), p));
            assert(spec_find(entries, p) == spec_find(d, p));
        }
    }
}

proof fn lemma_find_update(
    entries: Seq<(String, ModuleState)>,
    ix: int,
    e: (String, ModuleState),
    p: Seq<char>,
)
    requires
        spec_unique_keys(entries),
        0 <= ix < entries.len(),
        e.0@ == entries[ix].0@,
    ensures
        spec_find(entries.update(ix, e), p) == if p == e.0@ {
            Some(e.1@)
        } else {
            spec_find(entries, p)
        },
    decreases entries.len(),
{
    if ix == 0 {
        assert(entries.update(0, e)[0] == e);
        assert(entries.update(0, e).drop_first() =~= entries.drop_first());
    } else {
        assert(entries.update(ix, e)[0] == entries[0]);
        assert(entries.update(ix, e).drop_first() =~= entries.drop_first().update(ix - 1, e));
        assert(forall|i: int, j: int|
            0 <= i < j < entries.drop_first().len() ==> entries.drop_first()[i].0@
                != entries.drop_first()[j].0@);
        assert(entries.drop_first()[ix - 1] == entries[ix]);
        lemma_find_update(entries.drop_first(), ix - 1, e, p);
        assert(entries[0].0@ != entries[ix].0@);
    }
}

/// Every key of `a` is still a key of `b`: no store operation ever removes
/// an entry.
pub open spec fn spec_keys_preserved(
    a: Map<Seq<char>, ModuleStateV>,
    b: Map<Seq<char>, ModuleStateV>,
) -> bool {
    forall|p: Seq<char>| a.contains_key(p) ==> b.contains_key(p)
}

/// The cache, keyed by module path. Shared across requests by the server,
/// which brackets the two state transitions with a lock.
pub struct ModuleStore {
    entries: Vec<(String, ModuleState)>,
}

impl View for ModuleStore {
    type V = Map<Seq<char>, ModuleStateV>;

    closed spec fn view(&self) -> Map<Seq<char>, ModuleStateV> {
        Map::new(
            |p: Seq<char>| spec_find(self.entries@, p) is Some,
            |p: Seq<char>| spec_find(self.entries@, p)->Some_0,
        )
    }
}

impl ModuleStore {
    /// Each path has at most one entry.
    pub closed spec fn wf(&self) -> bool {
        spec_unique_keys(self.entries@)
    }

    pub fn new() -> (s: ModuleStore)
        ensures
            s.wf(),
            s@ == Map::<Seq<char>, ModuleStateV>::empty(),
    {
        let s = ModuleStore { entries: Vec::new() };
        proof {
            assert(s@ =~= Map::<Seq<char>, ModuleStateV>::empty());
        }
        s
    }

    fn find_index(&self, path: &String) -> (r: Option<usize>)
        ensures
            match r {
                Some(ix) => ix < self.entries@.len() && self.entries@[ix as int].0@ == path@
                    && spec_find(self.entries@, path@) == Some(self.entries@[ix as int].1@),
                None => spec_find(self.entries@, path@) is None,
            },
    {
        let ghost all = self.entries@;
        let n = self.entries.len();
        let mut i: usize = 0;
        proof {
            assert(all.skip(0) =~= all);
        }
        while i < n
            invariant
                all == self.entries@,
                n == all.len(),
                i <= n,
                spec_find(all, path@) == spec_find(all.skip(i as int), path@),
            decreases n - i,
        {
            proof {
                assert(all.skip(i as int)[0] == all[i as int]);
                assert(all.skip(i as int).drop_first() =~= all.skip(i + 1));
            }
            if self.entries[i].0.eq(path) {
                return Some(i);
            }
            i += 1;
        }
        proof {
            assert(all.skip(n as int) =~= Seq::<(String, ModuleState)>::empty());
        }
        None
    }

    /// The cached state of a path, if the path has been claimed at all.
    pub fn lookup(&self, path: &String) -> (r: Option<ModuleState>)
        ensures
            match r {
                Some(st) => self@.contains_key(path@) && self@[path@] == st@,
                None => !self@.contains_key(path@),
            },
    {
        match self.find_index(path) {
            Some(ix) => Some(clone_state(&self.entries[ix].1)),
            None => None,
        }
    }

    /// Claims a path for compilation. The answer is `true` exactly when the
    /// path had no entry yet, and then the path is marked in flight; a
    /// `false` answer leaves the store unchanged, and the caller awaits the
    /// holder's result instead of compiling.
    pub fn begin_compile(&mut self, path: &String) -> (leader: bool)
        requires
            old(self).wf(),
        ensures
            final(self).wf(),
            leader == !old(self)@.contains_key(path@),
            leader ==> final(self)@ == old(self)@.insert(path@, ModuleStateV::InFlight),
            !leader ==> final(self)@ == old(self)@,
            spec_keys_preserved(old(self)@, final(self)@),
    {
        match self.find_index(path) {
            Some(_) => false,
            None => {
                let ghost before = self.entries@;
                proof {
                    lemma_find_none(before, path@);
                }
                let e = (path.clone(), ModuleState::InFlight);
                let ghost ge = e;
                self.entries.push(e);
                proof {
                    assert forall|p: Seq<char>|
                        spec_find(self.entries@, p) == if spec_find(before, p) is Some {
                            spec_find(before, p)
                        } else if p == path@ {
                            Some(ModuleStateV::InFlight)
                        } else {
                            None::<ModuleStateV>
                        } by {
                        lemma_find_push(before, ge, p);
                    };
                    assert(final(self)@ =~= old(self)@.insert(path@, ModuleStateV::InFlight));
                }
                true
            },
        }
    }

    /// Publishes the result of the one in-flight compilation of a path. The
    /// entry moves to its permanent state; every other entry is untouched.
    pub fn finish_compile(&mut self, path: &String, outcome: Result<CompiledModule, CompileError>)
        requires
            old(self).wf(),
            old(self)@.contains_key(path@),
            old(self)@[path@] is InFlight,
        ensures
            final(self).wf(),
            final(self)@ == old(self)@.insert(
                path@,
                match outcome {
                    Ok(m) => ModuleStateV::Ready(m@),
                    Err(e) => ModuleStateV::Failed(e),
                },
            ),
            spec_keys_preserved(old(self)@, final(self)@),
    {
        let st = match outcome {
            Ok(m) => ModuleState::Ready(m),
            Err(e) => ModuleState::Failed(e),
        };
        match self.find_index(path) {
            None => {
                proof {
                    assert(false);
                }
            },
            Some(ix) => {
                let ghost before = self.entries@;
                let e = (path.clone(), st);
                let ghost ge = e;
                self.entries.set(ix, e);
                proof {
                    assert forall|p: Seq<char>|
                        spec_find(self.entries@, p) == if p == path@ {
                            Some(
                                match outcome {
                                    Ok(m) => ModuleStateV::Ready(m@),
                                    Err(e2) => ModuleStateV::Failed(e2),
                                },
                            )
                        } else {
                            spec_find(before, p)
                        } by {
                        lemma_find_update(before, ix as int, ge, p);
                    };
                    assert(final(self)@ =~= old(self)@.insert(
                        path@,
                        match outcome {
                            Ok(m) => ModuleStateV::Ready(m@),
                            Err(e2) => ModuleStateV::Failed(e2),
                        },
                    ));
                    assert forall|i: int, j: int|
                        0 <= i < j < self.entries@.len() implies self.entries@[i].0@
                        != self.entries@[j].0@ by {
                        assert(before[i].0@ != before[j].0@);
                    };
                }
            },
        }
    }

    /// Serves a path from the cache, compiling the given bytes exactly when
    /// the path has never been claimed. A `Ready` entry returns its
    /// artifact and a `Failed` entry its permanent error, both without any
    /// new work or state change. The caller must not hold an in-flight
    /// path, which in the server's protocol only the compiling caller owns.
    pub fn get_or_compile(&mut self, path: &String, bytes: &Vec<u8>) -> (r: Result<
        CompiledModule,
        CompileError,
    >)
        requires
            old(self).wf(),
            old(self)@.contains_key(path@) ==> !(old(self)@[path@] is InFlight),
        ensures
            final(self).wf(),
            spec_keys_preserved(old(self)@, final(self)@),
            old(self)@.contains_key(path@) ==> final(self)@ == old(self)@ && (match r {
                Ok(m) => old(self)@[path@] == ModuleStateV::Ready(m@),
                Err(e) => old(self)@[path@] == ModuleStateV::Failed(e),
            }),
            !old(self)@.contains_key(path@) ==> ((r is Ok) == (spec_has_wasm_magic(bytes@)
                && spec_has_supported_version(bytes@)) && (match r {
                Ok(m) => m@.path == path@ && m@.code == bytes@ && final(self)@ == old(self)@.insert(
                    path@,
                    ModuleStateV::Ready(m@),
                ),
                Err(e) => final(self)@ == old(self)@.insert(path@, ModuleStateV::Failed(e)),
            })),
    {
        match self.lookup(path) {
            Some(st) => match st {
                ModuleState::Ready(m) => Ok(m),
                ModuleState::Failed(e) => Err(e),
                ModuleState::InFlight => {
                    proof {
                        assert(false);
                    }
                    Err(CompileError::MalformedModule)
                },
            },
            None => {
                let leader = self.begin_compile(path);
                let res = compile_module(path, bytes);
                let stored: Result<CompiledModule, CompileError> = match &res {
                    Ok(m) => Ok(clone_module(m)),
                    Err(e) => Err(*e),
                };
                self.finish_compile(path, stored);
                proof {
                    assert(final(self)@ =~= old(self)@.insert(
                        path@,
                        match res {
                            Ok(m) => ModuleStateV::Ready(m@),
                            Err(e) => ModuleStateV::Failed(e),
                        },
                    ));
                }
                res
            },
        }
    }
}

/// Law: compilation is single-flight. Once a caller has claimed a path
/// (`begin_compile` answered `true`, leaving the path's entry in the
/// store), the entry survives every later store operation — each operation
/// preserves keys — so `begin_compile` on any later state answers `false`:
/// no second caller ever compiles the same path.
pub proof fn lemma_single_flight(
    before: Map<Seq<char>, ModuleStateV>,
    claimed: Map<Seq<char>, ModuleStateV>,
    later: Map<Seq<char>, ModuleStateV>,
    path: Seq<char>,
)
    requires
        !before.contains_key(path),
        claimed == before.insert(path, ModuleStateV::InFlight),
        spec_keys_preserved(claimed, later),
    ensures
        later.contains_key(path),
{
    assert(claimed.contains_key(path));
}

} // verus!
