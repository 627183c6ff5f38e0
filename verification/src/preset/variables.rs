//! Resolving all env values of a preset into its environment, entry by entry. Values that
//! need no I/O are resolved here; for a file read or a command run the resolution stops and
//! asks the caller, who hands the value back.
use vstd::prelude::*;
use vstd::pervasive::arbitrary;
use crate::env::{EnvVars, env_lookup, substitute};
use crate::error::ClaudioError;
use crate::order::{clone_string_pairs, string_pairs};
use crate::preset::resolve::{EnvValuePlan, file_path_for_source, insert_env, keys_unique, pairs_map, plan_env_value};
use crate::preset::types::{EnvValue, EnvValueSource, PresetSource};
use crate::text::opt_string_view;

verus! {

/// What one env value resolves to. Direct values have their `${VAR}` references
/// substituted, `value` sources are taken as written, `env` sources are looked up (a missing
/// variable is an error), and a file read or a command run gives `io`, what the caller
/// fetched for it (a `file` source whose path cannot be resolved fails first).
pub open spec fn entry_outcome(
    value: EnvValue,
    source: PresetSource,
    env: Seq<(Seq<char>, Seq<char>)>,
    home: Option<Seq<char>>,
    cwd: Option<Seq<char>>,
    io: Result<String, ClaudioError>,
    out: Result<String, ClaudioError>,
) -> bool {
    match value {
        EnvValue::Direct(s) => match substitute(s@, env) {
            Ok(x) => out matches Ok(y) && y@ == x,
            Err(n) => out matches Err(ClaudioError::MissingEnvVar(m)) && m@ == n,
        },
        EnvValue::Structured { source: vs } => match vs {
            EnvValueSource::Value { value: v } => out matches Ok(y) && y@ == v@,
            EnvValueSource::Env { var } => match env_lookup(env, var@) {
                Some(x) => out matches Ok(y) && y@ == x,
                None => out matches Err(ClaudioError::MissingEnvVar(m)) && m@ == var@,
            },
            EnvValueSource::File { path } => match file_path_for_source(path@, source, home, cwd) {
                Ok(_) => out == io,
                Err(e) => out == Err::<String, ClaudioError>(e),
            },
            EnvValueSource::Command { .. } => out == io,
        },
    }
}

/// The value reads the file at `p`.
pub open spec fn reads_file(
    value: EnvValue,
    source: PresetSource,
    home: Option<Seq<char>>,
    cwd: Option<Seq<char>>,
    p: Seq<char>,
) -> bool {
    &&& value matches EnvValue::Structured { source: EnvValueSource::File { path } }
    &&& file_path_for_source(value->source->path@, source, home, cwd) == Ok::<Seq<char>, ClaudioError>(p)
}

/// The value runs `command`, with this confirmation setting.
pub open spec fn runs_command(value: EnvValue, command: Seq<char>, confirm: Option<bool>) -> bool {
    value matches EnvValue::Structured { source: EnvValueSource::Command { command: c, confirm: k } }
        && c@ == command && k == confirm
}

/// The value needs something fetched: a file whose path resolves, or a command.
pub open spec fn fetches(value: EnvValue, source: PresetSource, home: Option<Seq<char>>, cwd: Option<Seq<char>>) -> bool {
    match value {
        EnvValue::Structured { source: EnvValueSource::File { path } } => file_path_for_source(path@, source, home, cwd) is Ok,
        EnvValue::Structured { source: EnvValueSource::Command { .. } } => true,
        _ => false,
    }
}

/// The text of a resolved value.
pub open spec fn ok_text(o: Result<String, ClaudioError>) -> Seq<char> {
    match o {
        Ok(v) => v@,
        Err(_) => Seq::empty(),
    }
}

/// Each entry's name with the value it resolved to, in order.
pub open spec fn resolved_pairs(
    entries: Seq<(String, EnvValue)>,
    outs: Seq<Result<String, ClaudioError>>,
) -> Seq<(Seq<char>, Seq<char>)> {
    Seq::new(outs.len(), |i: int| (entries[i].0@, ok_text(outs[i])))
}

/// A finished resolution: the entries were resolved in order to `outs` (with `ios` what
/// the caller fetched for them) up to the first failure. The result is that failure, or,
/// when every entry resolved, the environment that sets each entry's name to its value
/// (a later entry for a name replacing an earlier one).
pub open spec fn env_resolution(
    entries: Seq<(String, EnvValue)>,
    source: PresetSource,
    env: Seq<(Seq<char>, Seq<char>)>,
    home: Option<Seq<char>>,
    cwd: Option<Seq<char>>,
    ios: Seq<Result<String, ClaudioError>>,
    outs: Seq<Result<String, ClaudioError>>,
    r: Result<Vec<(String, String)>, ClaudioError>,
) -> bool {
    &&& outs.len() <= entries.len()
    &&& ios.len() == outs.len()
    &&& forall|i: int| 0 <= i < outs.len() ==> entry_outcome(entries[i].1, source, env, home, cwd, ios[i], #[trigger] outs[i])
    &&& forall|i: int| 0 <= i < outs.len() - 1 ==> (#[trigger] outs[i]) is Ok
    &&& match r {
        Ok(v) => {
            &&& outs.len() == entries.len()
            &&& (outs.len() == 0 || outs.last() is Ok)
            &&& keys_unique(string_pairs(v@))
            &&& pairs_map(string_pairs(v@)) == pairs_map(resolved_pairs(entries, outs))
        },
        Err(e) => outs.len() > 0 && outs.last() == Err::<String, ClaudioError>(e),
    }
}

/// What the resolution asks for next.
#[derive(Debug, PartialEq, Eq)]
pub enum EnvStep {
    /// Read this file and hand back what `file_value` makes of it.
    ReadFile(String),
    /// Authorize and run this command for the variable `key` (see `authorize_command` and
    /// `command_value`) and hand back the value or the error.
    RunCommand { key: String, command: String, confirm: Option<bool> },
    /// Finished: the environment, or the first error.
    Done(Result<Vec<(String, String)>, ClaudioError>),
}

/// The resolution of a preset's env entries, in order.
pub struct EnvResolution {
    entries: Vec<(String, EnvValue)>,
    source: PresetSource,
    env: EnvVars,
    os_home: Option<String>,
    cwd: Option<String>,
    next: usize,
    values: Vec<(String, String)>,
    waiting: bool,
    failure: Option<ClaudioError>,
    finished: bool,
    ios: Ghost<Seq<Result<String, ClaudioError>>>,
    outs: Ghost<Seq<Result<String, ClaudioError>>>,
}

impl EnvResolution {
    /// The entries being resolved.
    pub closed spec fn entries(self) -> Seq<(String, EnvValue)> {
        self.entries@
    }

    /// Where the preset came from.
    pub closed spec fn source(self) -> PresetSource {
        self.source
    }

    /// The environment variables references are looked up in.
    pub closed spec fn env(self) -> Seq<(Seq<char>, Seq<char>)> {
        self.env@
    }

    /// The home directory, for `~` in file paths.
    pub closed spec fn home(self) -> Option<Seq<char>> {
        opt_string_view(self.os_home)
    }

    /// The working directory, for relative file paths of inline presets.
    pub closed spec fn cwd(self) -> Option<Seq<char>> {
        opt_string_view(self.cwd)
    }

    /// What the caller fetched, entry by entry (unused where nothing was fetched).
    pub closed spec fn ios(self) -> Seq<Result<String, ClaudioError>> {
        self.ios@
    }

    /// What each entry resolved to so far.
    pub closed spec fn outs(self) -> Seq<Result<String, ClaudioError>> {
        self.outs@
    }

    /// The entry being resolved.
    pub closed spec fn pending(self) -> int {
        self.next as int
    }

    /// Waiting for the caller to hand back a fetched value.
    pub closed spec fn is_waiting(self) -> bool {
        self.waiting
    }

    /// The result has been given.
    pub closed spec fn is_finished(self) -> bool {
        self.finished
    }

    /// The state is consistent: the entries before `pending` resolved, the values hold
    /// them, and a wait is for an entry that fetches.
    pub closed spec fn wf(self) -> bool {
        let home = opt_string_view(self.os_home);
        let cwd = opt_string_view(self.cwd);
        &&& self.next <= self.entries@.len()
        &&& self.ios@.len() == self.outs@.len()
        &&& self.outs@.len() <= self.entries@.len()
        &&& (self.source matches PresetSource::File(pp) ==> pp@.len() < i64::MAX)
        &&& forall|i: int| 0 <= i < self.next ==> (#[trigger] self.outs@[i]) is Ok
        &&& forall|i: int| 0 <= i < self.outs@.len()
            ==> entry_outcome(self.entries@[i].1, self.source, self.env@, home, cwd, self.ios@[i], #[trigger] self.outs@[i])
        &&& keys_unique(string_pairs(self.values@))
        &&& pairs_map(string_pairs(self.values@)) == pairs_map(resolved_pairs(self.entries@, self.outs@.take(self.next as int)))
        &&& (self.outs@.len() == self.next || (self.outs@.len() == self.next + 1 && self.outs@.last() is Err))
        &&& (self.failure matches Some(e) ==> self.outs@.len() == self.next + 1
            && self.outs@.last() == Err::<String, ClaudioError>(e) && !self.waiting && !self.finished)
        &&& (!self.finished && self.failure is None ==> self.outs@.len() == self.next)
        &&& (self.waiting ==> !self.finished && self.next < self.entries@.len()
            && fetches(self.entries@[self.next as int].1, self.source, home, cwd))
    }

    /// Start resolving `entries` of a preset from `source`, with the environment `env`.
    pub fn new(
        entries: Vec<(String, EnvValue)>,
        source: PresetSource,
        env: EnvVars,
        os_home: Option<String>,
        cwd: Option<String>,
    ) -> (r: Self)
        requires
            source matches PresetSource::File(pp) ==> pp@.len() < i64::MAX,
        ensures
            r.wf(),
            r.entries() == entries@,
            r.source() == source,
            r.env() == env@,
            r.home() == opt_string_view(os_home),
            r.cwd() == opt_string_view(cwd),
            r.ios() == Seq::<Result<String, ClaudioError>>::empty(),
            r.outs() == Seq::<Result<String, ClaudioError>>::empty(),
            !r.is_waiting(),
            !r.is_finished(),
    {
        let r = EnvResolution {
            entries,
            source,
            env,
            os_home,
            cwd,
            next: 0,
            values: Vec::new(),
            waiting: false,
            failure: None,
            finished: false,
            ios: Ghost(Seq::empty()),
            outs: Ghost(Seq::empty()),
        };
        assert(resolved_pairs(r.entries@, r.outs@.take(0)) =~= Seq::<(Seq<char>, Seq<char>)>::empty());
        assert(string_pairs(r.values@) =~= Seq::<(Seq<char>, Seq<char>)>::empty());
        r
    }

    /// Resolve entries until one needs a file read or a command run, one fails, or all are
    /// done.
    pub fn advance(&mut self) -> (r: EnvStep)
        requires
            old(self).wf(),
            !old(self).is_waiting(),
            !old(self).is_finished(),
        ensures
            final(self).wf(),
            final(self).entries() == old(self).entries(),
            final(self).source() == old(self).source(),
            final(self).env() == old(self).env(),
            final(self).home() == old(self).home(),
            final(self).cwd() == old(self).cwd(),
            old(self).ios().len() <= final(self).ios().len(),
            final(self).ios().take(old(self).ios().len() as int) == old(self).ios(),
            match r {
                EnvStep::ReadFile(p) => {
                    &&& final(self).is_waiting()
                    &&& final(self).pending() == final(self).outs().len()
                    &&& reads_file(
                        final(self).entries()[final(self).pending()].1,
                        final(self).source(),
                        final(self).home(),
                        final(self).cwd(),
                        p@,
                    )
                },
                EnvStep::RunCommand { key, command, confirm } => {
                    &&& final(self).is_waiting()
                    &&& final(self).pending() == final(self).outs().len()
                    &&& key@ == final(self).entries()[final(self).pending()].0@
                    &&& runs_command(final(self).entries()[final(self).pending()].1, command@, confirm)
                },
                EnvStep::Done(res) => {
                    &&& final(self).is_finished()
                    &&& env_resolution(
                        final(self).entries(),
                        final(self).source(),
                        final(self).env(),
                        final(self).home(),
                        final(self).cwd(),
                        final(self).ios(),
                        final(self).outs(),
                        res,
                    )
                },
            },
    {
        let ghost ios0 = self.ios@;
        match self.failure.take() {
            Some(e) => {
                self.finished = true;
                assert(self.ios@.take(ios0.len() as int) =~= ios0);
                return EnvStep::Done(Err(e));
            },
            None => {},
        }
        let n = self.entries.len();
        let ghost entries0 = self.entries@;
        let ghost home = opt_string_view(self.os_home);
        let ghost cwd = opt_string_view(self.cwd);
        while self.next < n
            invariant
                self.wf(),
                self.failure is None,
                !self.waiting,
                !self.finished,
                n == self.entries@.len(),
                self.entries@ == entries0,
                entries0 == old(self).entries@,
                ios0 == old(self).ios@,
                self.source == old(self).source,
                self.env@ == old(self).env@,
                home == opt_string_view(self.os_home),
                cwd == opt_string_view(self.cwd),
                self.os_home == old(self).os_home,
                self.cwd == old(self).cwd,
                ios0.len() <= self.ios@.len(),
                self.ios@.take(ios0.len() as int) == ios0,
            decreases n - self.next,
        {
            let i = self.next;
            let os_home = match &self.os_home {
                Some(h) => Some(h.as_str()),
                None => None,
            };
            let cwd_str = match &self.cwd {
                Some(c) => Some(c.as_str()),
                None => None,
            };
            let plan = plan_env_value(&self.entries[i].1, &self.source, &self.env, os_home, cwd_str);
            match plan {
                Err(e) => {
                    let ghost before = self.outs@;
                    proof {
                        assert(before.take(i as int) =~= before);
                        let io: Result<String, ClaudioError> = arbitrary();
                        self.ios@ = self.ios@.push(io);
                        self.outs@ = self.outs@.push(Err(e));
                        assert(self.outs@.take(i as int) =~= before);
                        assert(self.ios@.take(ios0.len() as int) =~= ios0);
                    }
                    self.finished = true;
                    return EnvStep::Done(Err(e));
                },
                Ok(EnvValuePlan::Ready(v)) => {
                    let key = self.entries[i].0.clone();
                    let ghost before = self.outs@;
                    proof {
                        assert(before.take(i as int) =~= before);
                        let io: Result<String, ClaudioError> = arbitrary();
                        self.ios@ = self.ios@.push(io);
                        self.outs@ = self.outs@.push(Ok(v));
                        assert(self.outs@.take(i as int) =~= before);
                        assert(self.ios@.take(ios0.len() as int) =~= ios0);
                        let rp = resolved_pairs(entries0, self.outs@.take(i + 1));
                        assert(rp.drop_last() =~= resolved_pairs(entries0, before));
                        assert(rp.last() == (key@, v@));
                        assert(self.outs@.take(i + 1) =~= self.outs@);
                    }
                    insert_env(&mut self.values, key, v);
                    self.next = i + 1;
                },
                Ok(EnvValuePlan::ReadFile(p)) => {
                    self.waiting = true;
                    assert(self.ios@.take(ios0.len() as int) =~= ios0);
                    return EnvStep::ReadFile(p);
                },
                Ok(EnvValuePlan::RunCommand { command, confirm }) => {
                    let key = self.entries[i].0.clone();
                    self.waiting = true;
                    assert(self.ios@.take(ios0.len() as int) =~= ios0);
                    return EnvStep::RunCommand { key, command, confirm };
                },
            }
        }
        self.finished = true;
        assert(self.outs@.take(self.next as int) =~= self.outs@);
        assert(self.ios@.take(ios0.len() as int) =~= ios0);
        EnvStep::Done(Ok(clone_string_pairs(&self.values)))
    }

    /// Hand back what was fetched for the entry the resolution waits for: its value, or
    /// the error that ends the resolution at the next `advance`.
    pub fn supply(&mut self, fetched: Result<String, ClaudioError>)
        requires
            old(self).wf(),
            old(self).is_waiting(),
        ensures
            final(self).wf(),
            !final(self).is_waiting(),
            !final(self).is_finished(),
            final(self).entries() == old(self).entries(),
            final(self).source() == old(self).source(),
            final(self).env() == old(self).env(),
            final(self).home() == old(self).home(),
            final(self).cwd() == old(self).cwd(),
            final(self).ios() == old(self).ios().push(fetched),
            final(self).outs() == old(self).outs().push(fetched),
    {
        let i = self.next;
        let n = self.entries.len();
        let ghost before = self.outs@;
        proof {
            assert(before.take(i as int) =~= before);
            self.ios@ = self.ios@.push(fetched);
            self.outs@ = self.outs@.push(fetched);
            assert(self.outs@.take(i as int) =~= before);
        }
        self.waiting = false;
        match fetched {
            Ok(v) => {
                let key = self.entries[i].0.clone();
                proof {
                    let rp = resolved_pairs(self.entries@, self.outs@.take(i + 1));
                    assert(rp.drop_last() =~= resolved_pairs(self.entries@, before));
                    assert(rp.last() == (key@, v@));
                }
                insert_env(&mut self.values, key, v);
                self.next = i + 1;
            },
            Err(e) => {
                self.failure = Some(e);
            },
        }
    }
}

} // verus!
