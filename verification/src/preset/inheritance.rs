//! Inheritance through `extends`: the chain of presets from a preset to its last base, and
//! the resolved preset that the chain yields.
use vstd::prelude::*;
use crate::env::EnvVars;
use crate::error::ClaudioError;
use crate::json::{lemma_merge_json_determined, Json, JsonValue, clone_json, json_view, json_wf, lemma_resolve_json_view, merge_json, merge_json_settings, resolve_json_view, resolve_settings_variables};
use crate::order::{clone_string_pairs, string_pairs};
use crate::preset::resolve::{keys_unique, merge_env, pairs_map};
use crate::preset::types::{Preset, PresetSource, ResolvedPreset, preset_wf};
use crate::text::{clone_opt_string, is_blank, opt_string_view, strings_view, trim, trim_seq};

verus! {

/// The invariant of a resolved preset: each variable once, well-formed settings.
pub open spec fn resolved_wf(r: ResolvedPreset) -> bool {
    &&& keys_unique(string_pairs(r.env@))
    &&& r.settings matches Some(s) ==> json_wf(s)
}

/// The view of optional settings.
pub open spec fn settings_view(s: Option<JsonValue>) -> Option<Json> {
    match s {
        Some(v) => Some(json_view(v)),
        None => None,
    }
}

/// A preset's settings over those of its base: a missing side yields the other, else
/// the deep merge.
pub open spec fn merged_settings(base: Option<Json>, own: Option<JsonValue>) -> Option<Json> {
    match own {
        None => base,
        Some(d) => match base {
            None => Some(json_view(d)),
            Some(b) => Some(merge_json(b, d)),
        },
    }
}

/// The merged settings with their `${VAR}` references resolved, or the first missing name.
pub open spec fn resolved_settings(
    base: Option<Json>,
    own: Option<JsonValue>,
    env: Seq<(Seq<char>, Seq<char>)>,
) -> Result<Option<Json>, Seq<char>> {
    match merged_settings(base, own) {
        None => Ok(None),
        Some(j) => match resolve_json_view(j, env) {
            Ok(x) => Ok(Some(x)),
            Err(n) => Err(n),
        },
    }
}

/// A preset's own arguments.
pub open spec fn own_args(p: Preset) -> Seq<Seq<char>> {
    match p.args {
        Some(a) => strings_view(a@),
        None => Seq::empty(),
    }
}

/// The prompt, trimmed; none when it is missing or blank.
pub open spec fn normalized_prompt(p: Option<String>) -> Option<Seq<char>> {
    match p {
        Some(s) => if trim_seq(s@).len() == 0 {
            None
        } else {
            Some(trim_seq(s@))
        },
        None => None,
    }
}

fn clone_source(s: &PresetSource) -> (r: PresetSource)
    ensures
        r == *s,
{
    match s {
        PresetSource::Inline => PresetSource::Inline,
        PresetSource::File(p) => PresetSource::File(p.clone()),
    }
}

/// A copy of a vector of strings.
pub fn clone_strings(v: &Vec<String>) -> (r: Vec<String>)
    ensures
        strings_view(r@) == strings_view(v@),
{
    let mut out: Vec<String> = Vec::new();
    append_args(&mut out, v);
    assert(strings_view(out@) =~= strings_view(v@));
    out
}

fn append_args(out: &mut Vec<String>, v: &Vec<String>)
    ensures
        strings_view(final(out)@) == strings_view(old(out)@) + strings_view(v@),
{
    let ghost start = strings_view(out@);
    let n = v.len();
    for i in 0..n
        invariant
            n == v@.len(),
            strings_view(out@) == start + strings_view(v@).take(i as int),
    {
        let ghost before = out@;
        let c = v[i].clone();
        out.push(c);
        assert(out@ == before.push(c));
        assert(strings_view(before).len() == before.len());
        assert(strings_view(out@) =~= strings_view(before).push(c@));
        assert(strings_view(out@) =~= start + strings_view(v@).take(i + 1));
    }
    assert(strings_view(v@).take(n as int) =~= strings_view(v@));
}

/// Resolve one preset of a chain over its resolved base (if any): the preset's variables
/// over the base's, the base's arguments then the preset's, the settings merged and their
/// `${VAR}` references resolved, and the prompt trimmed (dropped when blank).
pub fn resolve_level(
    preset: &Preset,
    source: &PresetSource,
    env: &Vec<(String, String)>,
    base: Option<ResolvedPreset>,
    snapshot: &EnvVars,
) -> (r: Result<ResolvedPreset, ClaudioError>)
    requires
        preset_wf(*preset),
        keys_unique(string_pairs(env@)),
        base matches Some(b) ==> resolved_wf(b),
    ensures
        ({
            let bset = match base {
                Some(b) => settings_view(b.settings),
                None => None,
            };
            let benv = match base {
                Some(b) => pairs_map(string_pairs(b.env@)),
                None => Map::empty(),
            };
            let bargs = match base {
                Some(b) => strings_view(b.args@),
                None => Seq::empty(),
            };
            match resolved_settings(bset, preset.settings, snapshot@) {
                Err(n) => r matches Err(ClaudioError::MissingEnvVar(m)) && m@ == n,
                Ok(rs) => r matches Ok(out) && {
                    &&& resolved_wf(out)
                    &&& out.name@ == preset.name@
                    &&& opt_string_view(out.description) == opt_string_view(preset.description)
                    &&& opt_string_view(out.prompt) == normalized_prompt(preset.prompt)
                    &&& pairs_map(string_pairs(out.env@)) == benv.union_prefer_right(
                        pairs_map(string_pairs(env@)),
                    )
                    &&& strings_view(out.args@) == bargs + own_args(*preset)
                    &&& settings_view(out.settings) == rs
                    &&& out.source == *source
                },
            }
        }),
{
    let ghost bset = if base is Some {
        settings_view(base->0.settings)
    } else {
        None
    };
    let ghost bargs = if base is Some {
        strings_view(base->0.args@)
    } else {
        Seq::<Seq<char>>::empty()
    };
    let own_settings = match &preset.settings {
        Some(s) => Some(clone_json(s)),
        None => None,
    };
    let (merged_env, mut args, base_settings) = match base {
        Some(b) => {
            let me = merge_env(env, &b.env);
            (me, b.args, b.settings)
        },
        None => {
            let me = clone_string_pairs(env);
            proof {
                crate::preset::resolve::lemma_pairs_map(string_pairs(env@));
                assert(Map::<Seq<char>, Seq<char>>::empty().union_prefer_right(pairs_map(string_pairs(env@)))
                    =~= pairs_map(string_pairs(env@)));
            }
            (me, Vec::new(), None)
        },
    };
    assert(strings_view(args@) =~= bargs);
    match &preset.args {
        Some(a) => append_args(&mut args, a),
        None => {
            assert(strings_view(args@) + own_args(*preset) =~= strings_view(args@));
        },
    }
    assert(settings_view(base_settings) == bset);
    assert(settings_view(own_settings) == settings_view(preset.settings));
    proof {
        if preset.settings is Some && base_settings is Some {
            crate::json::lemma_merge_json_determined(bset->0, own_settings->0, preset.settings->0);
        }
    }
    let merged = merge_json_settings(base_settings, own_settings);
    assert(settings_view(merged) == merged_settings(bset, preset.settings));
    let settings = match merged {
        Some(m) => {
            proof {
                lemma_resolve_json_view(m, snapshot@);
            }
            match resolve_settings_variables(&m, snapshot) {
                Ok(x) => Some(x),
                Err(e) => return Err(e),
            }
        },
        None => None,
    };
    let prompt = match &preset.prompt {
        Some(p) => {
            let t = trim(p.as_str());
            if is_blank(p.as_str()) {
                proof {
                    crate::text::lemma_trim_empty(p@);
                }
                None
            } else {
                proof {
                    crate::text::lemma_trim_empty(p@);
                }
                Some(t)
            }
        },
        None => None,
    };
    Ok(ResolvedPreset {
        name: preset.name.clone(),
        description: clone_opt_string(&preset.description),
        prompt,
        env: merged_env,
        args,
        settings,
        source: clone_source(source),
    })
}

/// The variables of the chain from position `i` on: each preset's over those of its bases.
pub open spec fn chain_env(envs: Seq<Seq<(Seq<char>, Seq<char>)>>, i: int) -> Map<Seq<char>, Seq<char>>
    decreases envs.len() - i,
{
    if i < 0 || i >= envs.len() {
        Map::empty()
    } else {
        chain_env(envs, i + 1).union_prefer_right(pairs_map(envs[i]))
    }
}

/// The arguments of the chain from position `i` on: the last base's first.
pub open spec fn chain_args(presets: Seq<Preset>, i: int) -> Seq<Seq<char>>
    decreases presets.len() - i,
{
    if i < 0 || i >= presets.len() {
        Seq::empty()
    } else {
        chain_args(presets, i + 1) + own_args(presets[i])
    }
}

/// The resolved settings of the chain from position `i` on, or the first missing name.
pub open spec fn chain_settings(
    presets: Seq<Preset>,
    env: Seq<(Seq<char>, Seq<char>)>,
    i: int,
) -> Result<Option<Json>, Seq<char>>
    decreases presets.len() - i,
{
    if i < 0 || i >= presets.len() {
        Ok(None)
    } else {
        match chain_settings(presets, env, i + 1) {
            Err(n) => Err(n),
            Ok(b) => resolved_settings(b, presets[i].settings, env),
        }
    }
}

/// The names of a chain's presets.
pub open spec fn chain_names(presets: Seq<Preset>) -> Seq<Seq<char>> {
    presets.map_values(|p: Preset| p.name@)
}

/// The resolved variables of a chain's presets.
pub open spec fn envs_view(envs: Seq<Vec<(String, String)>>) -> Seq<Seq<(Seq<char>, Seq<char>)>> {
    envs.map_values(|v: Vec<(String, String)>| string_pairs(v@))
}

/// What resolving a chain waits for.
pub enum ChainStep {
    /// The env values of the last preset of the chain.
    ResolveEnv,
    /// The base preset of this name.
    FindBase(String),
    /// Nothing: every preset of the chain is known and its env values resolved.
    Finished,
    /// Nothing: resolution failed.
    Failed(ClaudioError),
}

/// Resolution of a preset's inheritance, one step at a time. The caller does the I/O:
/// it resolves the env values of the last preset, or finds a base preset, as `step` asks,
/// and hands back the outcome.
pub struct InheritanceChain {
    /// The preset first, then its base, then the base's base, and so on.
    pub presets: Vec<Preset>,
    pub sources: Vec<PresetSource>,
    /// The resolved env values of the presets, in the same order.
    pub envs: Vec<Vec<(String, String)>>,
    pub step: ChainStep,
}

/// Once the settings of a chain fail to resolve at some position, the whole chain fails
/// with the same missing name.
proof fn lemma_chain_settings_err(presets: Seq<Preset>, env: Seq<(Seq<char>, Seq<char>)>, i: int)
    requires
        0 <= i < presets.len(),
        chain_settings(presets, env, i) is Err,
    ensures
        chain_settings(presets, env, 0) == chain_settings(presets, env, i),
    decreases i,
{
    if i > 0 {
        lemma_chain_settings_err(presets, env, i - 1);
    }
}

/// In a chain, the nearest preset that sets a variable decides its value: a preset's own
/// value wins over every base, and a base's over the bases beyond it.
pub proof fn lemma_chain_env_nearest(envs: Seq<Seq<(Seq<char>, Seq<char>)>>, i: int, j: int, k: Seq<char>)
    requires
        0 <= i <= j < envs.len(),
        pairs_map(envs[j]).contains_key(k),
        forall|m: int| i <= m < j ==> !(#[trigger] pairs_map(envs[m])).contains_key(k),
    ensures
        chain_env(envs, i).contains_key(k),
        chain_env(envs, i)[k] == pairs_map(envs[j])[k],
    decreases j - i,
{
    if i < j {
        lemma_chain_env_nearest(envs, i + 1, j, k);
        assert(!pairs_map(envs[i]).contains_key(k));
    }
}

/// A chain sets exactly the variables that some preset on it sets.
pub proof fn lemma_chain_env_keys(envs: Seq<Seq<(Seq<char>, Seq<char>)>>, i: int, k: Seq<char>)
    requires
        0 <= i <= envs.len(),
    ensures
        chain_env(envs, i).contains_key(k) <==> exists|m: int| i <= m < envs.len() && (#[trigger] pairs_map(envs[m])).contains_key(k),
    decreases envs.len() - i,
{
    if i < envs.len() {
        lemma_chain_env_keys(envs, i + 1, k);
        if pairs_map(envs[i]).contains_key(k) {
            assert(i <= i < envs.len() && pairs_map(envs[i]).contains_key(k));
        }
        if exists|m: int| i <= m < envs.len() && (#[trigger] pairs_map(envs[m])).contains_key(k) {
            let m = choose|m: int| i <= m < envs.len() && (#[trigger] pairs_map(envs[m])).contains_key(k);
            if m > i {
                assert(i + 1 <= m < envs.len() && pairs_map(envs[m]).contains_key(k));
            }
        }
    }
}

impl InheritanceChain {
    /// Presets and sources agree, each preset but the last extends another, no name occurs
    /// twice, and the step fits what is known.
    pub open spec fn wf(&self) -> bool {
        let ps = self.presets@;
        &&& ps.len() == self.sources@.len()
        &&& ps.len() >= 1
        &&& forall|i: int| 0 <= i < ps.len() ==> preset_wf(#[trigger] ps[i])
        &&& forall|i: int| 0 <= i < ps.len() - 1 ==> (#[trigger] ps[i]).extends is Some
        &&& forall|i: int, j: int| 0 <= i < j < ps.len() ==> (#[trigger] ps[i]).name@ != (#[trigger] ps[j]).name@
        &&& forall|i: int| 0 <= i < self.envs@.len() ==> keys_unique(string_pairs((#[trigger] self.envs@[i])@))
        &&& match self.step {
            ChainStep::ResolveEnv => self.envs@.len() + 1 == ps.len(),
            ChainStep::FindBase(n) => self.envs@.len() == ps.len() && opt_string_view(ps.last().extends) == Some(n@),
            ChainStep::Finished => self.envs@.len() == ps.len() && ps.last().extends is None,
            ChainStep::Failed(_) => true,
        }
    }

    /// Begin with the preset to resolve.
    pub fn start(preset: Preset, source: PresetSource) -> (r: Self)
        requires
            preset_wf(preset),
        ensures
            r.wf(),
            r.presets@ == seq![preset],
            r.sources@ == seq![source],
            r.envs@.len() == 0,
            r.step is ResolveEnv,
    {
        let presets = vec![preset];
        let sources = vec![source];
        InheritanceChain { presets, sources, envs: Vec::new(), step: ChainStep::ResolveEnv }
    }

    /// The preset whose env values are to be resolved, with its source.
    pub fn pending(&self) -> (r: (&Preset, &PresetSource))
        requires
            self.wf(),
            self.step is ResolveEnv,
        ensures
            *r.0 == self.presets@.last(),
            *r.1 == self.sources@.last(),
    {
        let n = self.presets.len();
        (&self.presets[n - 1], &self.sources[n - 1])
    }

    /// Take the resolved env values of the last preset: then find its base, or finish
    /// when it extends none. A failure ends the resolution with that error.
    pub fn env_resolved(&mut self, env: Result<Vec<(String, String)>, ClaudioError>)
        requires
            old(self).wf(),
            old(self).step is ResolveEnv,
            env matches Ok(e) ==> keys_unique(string_pairs(e@)),
        ensures
            final(self).wf(),
            final(self).presets@ == old(self).presets@,
            final(self).sources@ == old(self).sources@,
            match env {
                Err(e) => final(self).step == ChainStep::Failed(e) && final(self).envs@ == old(self).envs@,
                Ok(e) => final(self).envs@ == old(self).envs@.push(e) && match old(self).presets@.last().extends {
                    Some(n) => final(self).step matches ChainStep::FindBase(m) && m@ == n@,
                    None => final(self).step is Finished,
                },
            },
    {
        match env {
            Err(e) => {
                self.step = ChainStep::Failed(e);
            },
            Ok(e) => {
                self.envs.push(e);
                let n = self.presets.len();
                match &self.presets[n - 1].extends {
                    Some(name) => {
                        self.step = ChainStep::FindBase(name.clone());
                    },
                    None => {
                        self.step = ChainStep::Finished;
                    },
                }
            },
        }
    }

    /// Take the base preset that was looked up: a preset whose name is already on the
    /// chain makes the inheritance circular; else it joins the chain and its env values
    /// are next. A failed lookup ends the resolution, with the base's name in context.
    pub fn base_found(&mut self, found: Result<(Preset, PresetSource), ClaudioError>)
        requires
            old(self).wf(),
            old(self).step is FindBase,
            found matches Ok(f) ==> preset_wf(f.0),
        ensures
            final(self).wf(),
            final(self).envs@ == old(self).envs@,
            match found {
                Err(e) => {
                    &&& final(self).presets@ == old(self).presets@
                    &&& final(self).step matches ChainStep::Failed(ClaudioError::Context { context, cause })
                        && context@ == "Failed to find base preset: "@ + old(self).step->FindBase_0@ && *cause == e
                },
                Ok(f) => if chain_names(old(self).presets@).contains(f.0.name@) {
                    &&& final(self).presets@ == old(self).presets@
                    &&& final(self).step matches ChainStep::Failed(ClaudioError::CircularInheritance(v))
                        && strings_view(v@) == chain_names(old(self).presets@).push(f.0.name@)
                } else {
                    &&& final(self).presets@ == old(self).presets@.push(f.0)
                    &&& final(self).sources@ == old(self).sources@.push(f.1)
                    &&& final(self).step is ResolveEnv
                },
            },
    {
        let ghost names = chain_names(self.presets@);
        let base_name = match &self.step {
            ChainStep::FindBase(n) => n.clone(),
            _ => String::new(),
        };
        match found {
            Err(e) => {
                let mut context = String::new();
                context.push_str("Failed to find base preset: ");
                context.push_str(base_name.as_str());
                self.step = ChainStep::Failed(ClaudioError::Context { context, cause: Box::new(e) });
            },
            Ok((p, s)) => {
                let n = self.presets.len();
                let mut seen: Vec<String> = Vec::new();
                let mut circular = false;
                for i in 0..n
                    invariant
                        n == self.presets@.len(),
                        names == chain_names(self.presets@),
                        strings_view(seen@) == names.take(i as int),
                        circular == names.take(i as int).contains(p.name@),
                {
                    let ghost before = seen@;
                    let nm = self.presets[i].name.clone();
                    let hit = crate::text::str_eq(nm.as_str(), p.name.as_str());
                    seen.push(nm);
                    proof {
                        assert(strings_view(before).len() == before.len());
                        assert(strings_view(seen@) =~= strings_view(before).push(names[i as int]));
                        assert(names.take(i + 1) =~= names.take(i as int).push(names[i as int]));
                        if names.take(i + 1).contains(p.name@) {
                            let k = choose|k: int| 0 <= k < names.take(i + 1).len() && #[trigger] names.take(i + 1)[k] == p.name@;
                            if k < i {
                                assert(names.take(i as int)[k] == p.name@);
                            }
                        }
                        if names.take(i as int).contains(p.name@) {
                            let k = choose|k: int| 0 <= k < names.take(i as int).len() && #[trigger] names.take(i as int)[k] == p.name@;
                            assert(names.take(i + 1)[k] == p.name@);
                        }
                        if hit {
                            assert(names.take(i + 1)[i as int] == p.name@);
                        }
                    }
                    circular = circular || hit;
                }
                assert(names.take(n as int) =~= names);
                if circular {
                    let ghost before = seen@;
                    seen.push(p.name.clone());
                    assert(strings_view(before).len() == before.len());
                    assert(strings_view(seen@) =~= names.push(p.name@));
                    self.step = ChainStep::Failed(ClaudioError::CircularInheritance(seen));
                } else {
                    proof {
                        assert forall|i: int| 0 <= i < n implies self.presets@[i].name@ != p.name@ by {
                            assert(names[i] == self.presets@[i].name@);
                        }
                    }
                    self.presets.push(p);
                    self.sources.push(s);
                    self.step = ChainStep::ResolveEnv;
                }
            },
        }
    }
    /// The resolved preset: the first preset of the chain with the variables of the whole
    /// chain (the nearest preset that sets one decides its value), the arguments of the last
    /// base first, and the settings merged from the last base on, each level resolving its
    /// `${VAR}` references; the first name that is not set is the error.
    pub fn finish(&self, snapshot: &EnvVars) -> (r: Result<ResolvedPreset, ClaudioError>)
        requires
            self.wf(),
            self.step is Finished,
        ensures
            ({
                let ps = self.presets@;
                match chain_settings(ps, snapshot@, 0) {
                    Err(n) => r matches Err(ClaudioError::MissingEnvVar(m)) && m@ == n,
                    Ok(rs) => r matches Ok(out) && {
                        &&& resolved_wf(out)
                        &&& out.name@ == ps[0].name@
                        &&& opt_string_view(out.description) == opt_string_view(ps[0].description)
                        &&& opt_string_view(out.prompt) == normalized_prompt(ps[0].prompt)
                        &&& pairs_map(string_pairs(out.env@)) == chain_env(envs_view(self.envs@), 0)
                        &&& strings_view(out.args@) == chain_args(ps, 0)
                        &&& settings_view(out.settings) == rs
                        &&& out.source == self.sources@[0]
                    },
                }
            }),
    {
        let ghost ps = self.presets@;
        let ghost ev = envs_view(self.envs@);
        let n = self.presets.len();
        let mut acc: Option<ResolvedPreset> = None;
        let mut i = n;
        while i > 0
            invariant
                self.wf(),
                self.step is Finished,
                ps == self.presets@,
                ev == envs_view(self.envs@),
                n == ps.len(),
                i <= n,
                i == n ==> acc is None,
                i < n ==> (acc matches Some(a) && {
                    &&& resolved_wf(a)
                    &&& a.name@ == ps[i as int].name@
                    &&& opt_string_view(a.description) == opt_string_view(ps[i as int].description)
                    &&& opt_string_view(a.prompt) == normalized_prompt(ps[i as int].prompt)
                    &&& pairs_map(string_pairs(a.env@)) == chain_env(ev, i as int)
                    &&& strings_view(a.args@) == chain_args(ps, i as int)
                    &&& chain_settings(ps, snapshot@, i as int) == Ok::<Option<Json>, Seq<char>>(settings_view(a.settings))
                    &&& a.source == self.sources@[i as int]
                }),
            decreases i,
        {
            i = i - 1;
            assert(ev[i as int] == string_pairs(self.envs@[i as int]@));
            assert(keys_unique(string_pairs(self.envs@[i as int]@)));
            assert(preset_wf(ps[i as int]));
            proof {
                if i + 1 == n {
                    assert(chain_env(ev, n as int) == Map::<Seq<char>, Seq<char>>::empty());
                    assert(chain_args(ps, n as int) == Seq::<Seq<char>>::empty());
                    assert(chain_settings(ps, snapshot@, n as int) == Ok::<Option<Json>, Seq<char>>(None));
                }
            }
            match resolve_level(&self.presets[i], &self.sources[i], &self.envs[i], acc, snapshot) {
                Err(e) => {
                    proof {
                        lemma_chain_settings_err(ps, snapshot@, i as int);
                    }
                    return Err(e);
                },
                Ok(r) => {
                    proof {
                        if i + 1 == n {
                            assert(Seq::<Seq<char>>::empty() + own_args(ps[i as int]) =~= own_args(ps[i as int]));
                        }
                    }
                    acc = Some(r);
                },
            }
        }
        Ok(acc.unwrap())
    }
}

} // verus!
