//! Cleanout presets: the thresholds that drive retention marking and
//! garbage collection, their validation, and the precedence rules by which
//! a preset from one source overrides another.
//!
//! Ages and durations are counted in whole seconds. A configured zero
//! means "unset this option".
use vstd::prelude::*;

verus! {

/// One preset of cleanout criteria. Loading a file and turning its text
/// into presets happens outside; the merging rules live here.
pub struct ConfigPreset {
    /// Keep at least this many generations.
    pub keep_min: Option<usize>,
    /// Keep at most this many generations.
    pub keep_max: Option<usize>,
    /// Keep all generations newer than this age, in seconds.
    pub keep_newer: Option<u64>,
    /// Discard all generations older than this age, in seconds.
    pub remove_older: Option<u64>,
    /// Remove these specific generations.
    pub generations: Vec<usize>,
    /// Ask before removing generations or collecting garbage.
    pub interactive: Option<bool>,
    /// The flag that overrides `interactive` on the command line; always
    /// cleared by merging.
    pub _non_interactive: Option<bool>,
    /// Run garbage collection afterwards.
    pub gc: Option<bool>,
    /// Only collect if the store is bigger than this many gibibytes.
    pub gc_bigger: Option<u64>,
    /// Only collect if the store uses more than this percentage of its device.
    pub gc_quota: Option<u64>,
    /// Collect just enough garbage to meet the bound or quota.
    pub gc_modest: bool,
}

/// The mathematical shadow of a preset.
pub ghost struct PresetView {
    pub keep_min: Option<usize>,
    pub keep_max: Option<usize>,
    pub keep_newer: Option<u64>,
    pub remove_older: Option<u64>,
    pub generations: Seq<usize>,
    pub interactive: Option<bool>,
    pub non_interactive: Option<bool>,
    pub gc: Option<bool>,
    pub gc_bigger: Option<u64>,
    pub gc_quota: Option<u64>,
    pub gc_modest: bool,
}

impl View for ConfigPreset {
    type V = PresetView;

    open spec fn view(&self) -> PresetView {
        PresetView {
            keep_min: self.keep_min,
            keep_max: self.keep_max,
            keep_newer: self.keep_newer,
            remove_older: self.remove_older,
            generations: self.generations@,
            interactive: self.interactive,
            non_interactive: self._non_interactive,
            gc: self.gc,
            gc_bigger: self.gc_bigger,
            gc_quota: self.gc_quota,
            gc_modest: self.gc_modest,
        }
    }
}

/// A count from `other` overrides one from `self`; zero unsets.
pub open spec fn spec_merge_usize(a: Option<usize>, b: Option<usize>) -> Option<usize> {
    match b {
        Option::Some(v) => if v == 0 {
            Option::None
        } else {
            Option::Some(v)
        },
        Option::None => a,
    }
}

/// An age from `other` overrides one from `self`; zero unsets.
pub open spec fn spec_merge_u64(a: Option<u64>, b: Option<u64>) -> Option<u64> {
    match b {
        Option::Some(v) => if v == 0 {
            Option::None
        } else {
            Option::Some(v)
        },
        Option::None => a,
    }
}

/// A flag from `other` overrides one from `self`.
pub open spec fn spec_merge_bool(a: Option<bool>, b: Option<bool>) -> Option<bool> {
    match b {
        Option::Some(v) => Option::Some(v),
        Option::None => a,
    }
}

/// Whether `a` and `b` both hold values with `a`'s greater.
pub open spec fn opt_gt_usize(a: Option<usize>, b: Option<usize>) -> bool {
    match (a, b) {
        (Option::Some(x), Option::Some(y)) => x > y,
        _ => false,
    }
}

/// Whether `a` and `b` both hold values with `a`'s greater.
pub open spec fn opt_gt_u64(a: Option<u64>, b: Option<u64>) -> bool {
    match (a, b) {
        (Option::Some(x), Option::Some(y)) => x > y,
        _ => false,
    }
}

/// The merged keep-min/keep-max pair: field-wise merge, then, when the
/// merged bounds cross, the side that `other` left unset is pulled to the
/// other bound.
pub open spec fn spec_minmax(a: PresetView, b: PresetView) -> (Option<usize>, Option<usize>) {
    let km = spec_merge_usize(a.keep_min, b.keep_min);
    let kx = spec_merge_usize(a.keep_max, b.keep_max);
    if opt_gt_usize(km, kx) {
        if b.keep_min is None {
            (kx, kx)
        } else if b.keep_max is None {
            (km, km)
        } else {
            (km, kx)
        }
    } else {
        (km, kx)
    }
}

/// Merging cannot reconcile crossed keep-min/keep-max bounds when `other`
/// set both: the original treats that as a fatal inconsistency.
pub open spec fn spec_minmax_conflict(a: PresetView, b: PresetView) -> bool {
    opt_gt_usize(spec_merge_usize(a.keep_min, b.keep_min), spec_merge_usize(a.keep_max, b.keep_max))
        && b.keep_min is Some && b.keep_max is Some
}

/// The merged keep-newer/remove-older pair. When the merged ages cross,
/// an unset `keep_newer` in `other` pulls it down to `remove_older`;
/// otherwise an unset `keep_max` in `other` pulls `remove_older` up.
pub open spec fn spec_newer_older(a: PresetView, b: PresetView) -> (Option<u64>, Option<u64>) {
    let kn = spec_merge_u64(a.keep_newer, b.keep_newer);
    let ro = spec_merge_u64(a.remove_older, b.remove_older);
    if opt_gt_u64(kn, ro) {
        if b.keep_newer is None {
            (ro, ro)
        } else if b.keep_max is None {
            (kn, kn)
        } else {
            (kn, ro)
        }
    } else {
        (kn, ro)
    }
}

/// Merging cannot reconcile crossed keep-newer/remove-older ages when
/// `other` set both `keep_newer` and `keep_max`.
pub open spec fn spec_newer_older_conflict(a: PresetView, b: PresetView) -> bool {
    opt_gt_u64(spec_merge_u64(a.keep_newer, b.keep_newer), spec_merge_u64(a.remove_older, b.remove_older))
        && b.keep_newer is Some && b.keep_max is Some
}

/// The preset that `other` layered over `self` yields.
pub open spec fn spec_override(a: PresetView, b: PresetView) -> PresetView {
    PresetView {
        keep_min: spec_minmax(a, b).0,
        keep_max: spec_minmax(a, b).1,
        keep_newer: spec_newer_older(a, b).0,
        remove_older: spec_newer_older(a, b).1,
        generations: b.generations,
        interactive: spec_merge_bool(a.interactive, b.interactive),
        non_interactive: Option::None,
        gc: spec_merge_bool(a.gc, b.gc),
        gc_bigger: spec_merge_u64(a.gc_bigger, b.gc_bigger),
        gc_quota: spec_merge_u64(a.gc_quota, b.gc_quota),
        gc_modest: a.gc_modest || b.gc_modest,
    }
}

/// The preset `b` layered over `a` when `b` is present, else `a`.
pub open spec fn spec_override_opt(a: PresetView, b: Option<PresetView>) -> PresetView {
    match b {
        Option::Some(p) => spec_override(a, p),
        Option::None => a,
    }
}

/// Zero thresholds turned into unset options.
pub open spec fn spec_finalize(a: PresetView) -> PresetView {
    PresetView {
        keep_min: spec_merge_usize(Option::None, a.keep_min),
        keep_max: spec_merge_usize(Option::None, a.keep_max),
        keep_newer: spec_merge_u64(Option::None, a.keep_newer),
        remove_older: spec_merge_u64(Option::None, a.remove_older),
        generations: a.generations,
        interactive: a.interactive,
        non_interactive: Option::None,
        gc: a.gc,
        gc_bigger: spec_merge_u64(Option::None, a.gc_bigger),
        gc_quota: spec_merge_u64(Option::None, a.gc_quota),
        gc_modest: a.gc_modest,
    }
}

/// The built-in baseline: keep at least one generation, everything else
/// unset.
pub open spec fn spec_default_preset(p: PresetView) -> bool {
    &&& p.keep_min == Option::Some(1usize)
    &&& p.keep_max is None
    &&& p.keep_newer is None
    &&& p.remove_older is None
    &&& p.generations == Seq::<usize>::empty()
    &&& p.interactive is None
    &&& p.non_interactive is None
    &&& p.gc is None
    &&& p.gc_bigger is None
    &&& p.gc_quota is None
    &&& p.gc_modest == false
}

/// Whether layering the three preset sources over the baseline runs into
/// an irreconcilable bound conflict at some stage.
pub open spec fn spec_load_conflict(
    base: PresetView,
    system: Option<PresetView>,
    user: Option<PresetView>,
    custom: Option<PresetView>,
) -> bool {
    let s1 = spec_override_opt(base, system);
    let s2 = spec_override_opt(s1, user);
    ||| match system {
        Option::Some(p) => spec_minmax_conflict(base, p) || spec_newer_older_conflict(base, p),
        Option::None => false,
    }
    ||| match user {
        Option::Some(p) => spec_minmax_conflict(s1, p) || spec_newer_older_conflict(s1, p),
        Option::None => false,
    }
    ||| match custom {
        Option::Some(p) => spec_minmax_conflict(s2, p) || spec_newer_older_conflict(s2, p),
        Option::None => false,
    }
}

fn merge_usize(a: Option<usize>, b: Option<usize>) -> (r: Option<usize>)
    ensures
        r == spec_merge_usize(a, b),
{
    match b {
        Option::Some(0) => Option::None,
        Option::Some(v) => Option::Some(v),
        Option::None => a,
    }
}

fn merge_u64(a: Option<u64>, b: Option<u64>) -> (r: Option<u64>)
    ensures
        r == spec_merge_u64(a, b),
{
    match b {
        Option::Some(0) => Option::None,
        Option::Some(v) => Option::Some(v),
        Option::None => a,
    }
}

fn merge_bool(a: Option<bool>, b: Option<bool>) -> (r: Option<bool>)
    ensures
        r == spec_merge_bool(a, b),
{
    match b {
        Option::Some(v) => Option::Some(v),
        Option::None => a,
    }
}

impl ConfigPreset {
    /// Check that configured bounds do not cross: keep-min at most
    /// keep-max, keep-newer at most remove-older, whenever both are set.
    pub fn validate(&self) -> (r: Result<(), String>)
        ensures
            match r {
                Result::Ok(_) => !opt_gt_usize(self@.keep_min, self@.keep_max) && !opt_gt_u64(
                    self@.keep_newer,
                    self@.remove_older,
                ),
                Result::Err(e) => {
                    ||| (opt_gt_usize(self@.keep_min, self@.keep_max) && e@
                        == "Invalid configuration - keep-min is greater than keep-max"@)
                    ||| (!opt_gt_usize(self@.keep_min, self@.keep_max) && opt_gt_u64(
                        self@.keep_newer,
                        self@.remove_older,
                    ) && e@ == "Invalid configuration - keep-newer is greater than remove-older"@)
                },
            },
    {
        if let (Option::Some(min), Option::Some(max)) = (self.keep_min, self.keep_max) {
            if min > max {
                return Result::Err(
                    String::from_str("Invalid configuration - keep-min is greater than keep-max"),
                );
            }
        }
        if let (Option::Some(newer), Option::Some(older)) = (self.keep_newer, self.remove_older) {
            if newer > older {
                return Result::Err(
                    String::from_str(
                        "Invalid configuration - keep-newer is greater than remove-older",
                    ),
                );
            }
        }
        Result::Ok(())
    }

    /// Whether layering `other` over `self` would run into an
    /// irreconcilable bound conflict — the condition under which the
    /// merge is refused (the original aborts there). This is
    /// [`Self::override_with`]'s precondition, decidable at run time.
    pub fn override_conflicts(&self, other: &ConfigPreset) -> (r: bool)
        ensures
            r == (spec_minmax_conflict(self@, other@) || spec_newer_older_conflict(self@, other@)),
    {
        let km = merge_usize(self.keep_min, other.keep_min);
        let kx = merge_usize(self.keep_max, other.keep_max);
        let crossed = match (km, kx) {
            (Option::Some(a), Option::Some(b)) => a > b,
            _ => false,
        };
        let minmax = crossed && other.keep_min.is_some() && other.keep_max.is_some();
        let kn = merge_u64(self.keep_newer, other.keep_newer);
        let ro = merge_u64(self.remove_older, other.remove_older);
        let crossed_ages = match (kn, ro) {
            (Option::Some(a), Option::Some(b)) => a > b,
            _ => false,
        };
        let ages = crossed_ages && other.keep_newer.is_some() && other.keep_max.is_some();
        minmax || ages
    }

    /// Layer `other` over `self`: values in `other` win, zeros unset, and
    /// crossed bounds are reconciled toward the side `other` set. The
    /// inputs must not conflict irreconcilably (the original aborts there).
    pub fn override_with(&self, other: &ConfigPreset) -> (r: ConfigPreset)
        requires
            !spec_minmax_conflict(self@, other@),
            !spec_newer_older_conflict(self@, other@),
        ensures
            r@ == spec_override(self@, other@),
    {
        let mut keep_min = merge_usize(self.keep_min, other.keep_min);
        let mut keep_max = merge_usize(self.keep_max, other.keep_max);
        let mut keep_newer = merge_u64(self.keep_newer, other.keep_newer);
        let mut remove_older = merge_u64(self.remove_older, other.remove_older);

        let crossed = match (keep_min, keep_max) {
            (Option::Some(a), Option::Some(b)) => a > b,
            _ => false,
        };
        if crossed {
            if other.keep_min.is_none() {
                keep_min = keep_max;
            } else {
                keep_max = keep_min;
            }
        }

        let crossed_ages = match (keep_newer, remove_older) {
            (Option::Some(a), Option::Some(b)) => a > b,
            _ => false,
        };
        if crossed_ages {
            if other.keep_newer.is_none() {
                keep_newer = remove_older;
            } else {
                remove_older = keep_newer;
            }
        }

        let r = ConfigPreset {
            keep_min,
            keep_max,
            keep_newer,
            remove_older,
            generations: other.generations.clone(),
            interactive: merge_bool(self.interactive, other.interactive),
            _non_interactive: Option::None,
            gc: merge_bool(self.gc, other.gc),
            gc_bigger: merge_u64(self.gc_bigger, other.gc_bigger),
            gc_quota: merge_u64(self.gc_quota, other.gc_quota),
            gc_modest: self.gc_modest || other.gc_modest,
        };
        proof {
            assert(r@ =~= spec_override(self@, other@));
        }
        r
    }

    /// Layer a preset over `self` when one is given, else keep `self`.
    pub fn override_with_opt(&self, other: Option<&ConfigPreset>) -> (r: ConfigPreset)
        requires
            match other {
                Option::Some(p) => !spec_minmax_conflict(self@, p@)
                    && !spec_newer_older_conflict(self@, p@),
                Option::None => true,
            },
        ensures
            r@ == spec_override_opt(
                self@,
                match other {
                    Option::Some(p) => Option::Some(p@),
                    Option::None => Option::None,
                },
            ),
    {
        match other {
            Option::Some(preset) => self.override_with(preset),
            Option::None => {
                let r = ConfigPreset {
                    keep_min: self.keep_min,
                    keep_max: self.keep_max,
                    keep_newer: self.keep_newer,
                    remove_older: self.remove_older,
                    generations: self.generations.clone(),
                    interactive: self.interactive,
                    _non_interactive: self._non_interactive,
                    gc: self.gc,
                    gc_bigger: self.gc_bigger,
                    gc_quota: self.gc_quota,
                    gc_modest: self.gc_modest,
                };
                proof {
                    assert(r@ =~= self@);
                }
                r
            },
        }
    }

    /// Turn zero thresholds into unset options and clear the override flag.
    fn finalize(&self) -> (r: ConfigPreset)
        ensures
            r@ == spec_finalize(self@),
    {
        let r = ConfigPreset {
            keep_min: merge_usize(Option::None, self.keep_min),
            keep_max: merge_usize(Option::None, self.keep_max),
            keep_newer: merge_u64(Option::None, self.keep_newer),
            remove_older: merge_u64(Option::None, self.remove_older),
            generations: self.generations.clone(),
            interactive: self.interactive,
            _non_interactive: Option::None,
            gc: self.gc,
            gc_bigger: merge_u64(Option::None, self.gc_bigger),
            gc_quota: merge_u64(Option::None, self.gc_quota),
            gc_modest: self.gc_modest,
        };
        proof {
            assert(r@ =~= spec_finalize(self@));
        }
        r
    }

    /// Whether assembling a preset from these three sources would run
    /// into an irreconcilable bound conflict at any layering stage. This
    /// is [`Self::load`]'s precondition, decidable at run time.
    pub fn load_conflicts(
        system_preset: Option<&ConfigPreset>,
        user_preset: Option<&ConfigPreset>,
        custom_preset: Option<&ConfigPreset>,
    ) -> (r: bool)
        ensures
            forall|base: PresetView|
                spec_default_preset(base) ==> r == spec_load_conflict(
                    base,
                    match system_preset {
                        Option::Some(p) => Option::Some(p@),
                        Option::None => Option::None,
                    },
                    match user_preset {
                        Option::Some(p) => Option::Some(p@),
                        Option::None => Option::None,
                    },
                    match custom_preset {
                        Option::Some(p) => Option::Some(p@),
                        Option::None => Option::None,
                    },
                ),
    {
        let base = ConfigPreset::default();
        if let Option::Some(p) = system_preset {
            if base.override_conflicts(p) {
                return true;
            }
        }
        let s1 = base.override_with_opt(system_preset);
        if let Option::Some(p) = user_preset {
            if s1.override_conflicts(p) {
                return true;
            }
        }
        let s2 = s1.override_with_opt(user_preset);
        if let Option::Some(p) = custom_preset {
            if s2.override_conflicts(p) {
                return true;
            }
        }
        false
    }

    /// Assemble the preset named on the command line from its three
    /// sources, highest-priority last: the named preset of the system
    /// configuration, of the user configuration, and of a custom file.
    /// Reading and parsing those files happens outside; this is the
    /// merging. Unless the requested name is the default preset's, at
    /// least one source must know the name.
    pub fn load(
        preset_name: &str,
        system_preset: Option<&ConfigPreset>,
        user_preset: Option<&ConfigPreset>,
        custom_preset: Option<&ConfigPreset>,
    ) -> (r: Result<ConfigPreset, String>)
        requires
            forall|base: PresetView|
                spec_default_preset(base) ==> !spec_load_conflict(
                    base,
                    match system_preset {
                        Option::Some(p) => Option::Some(p@),
                        Option::None => Option::None,
                    },
                    match user_preset {
                        Option::Some(p) => Option::Some(p@),
                        Option::None => Option::None,
                    },
                    match custom_preset {
                        Option::Some(p) => Option::Some(p@),
                        Option::None => Option::None,
                    },
                ),
        ensures
            match r {
                Result::Ok(p) => {
                    &&& (system_preset is Some || user_preset is Some || custom_preset is Some
                        || preset_name@ == "default"@)
                    &&& forall|base: PresetView|
                        spec_default_preset(base) ==> p@ == spec_finalize(
                            spec_override_opt(
                                spec_override_opt(
                                    spec_override_opt(
                                        base,
                                        match system_preset {
                                            Option::Some(q) => Option::Some(q@),
                                            Option::None => Option::None,
                                        },
                                    ),
                                    match user_preset {
                                        Option::Some(q) => Option::Some(q@),
                                        Option::None => Option::None,
                                    },
                                ),
                                match custom_preset {
                                    Option::Some(q) => Option::Some(q@),
                                    Option::None => Option::None,
                                },
                            ),
                        )
                },
                Result::Err(e) => {
                    &&& system_preset is None
                    &&& user_preset is None
                    &&& custom_preset is None
                    &&& preset_name@ != "default"@
                    &&& e@ == "Could not find preset '"@.add(preset_name@).add("'"@)
                },
            },
    {
        let is_default = crate::pathstr::eq_str(preset_name, "default");
        if system_preset.is_none() && user_preset.is_none() && custom_preset.is_none()
            && !is_default {
            let mut e = String::from_str("Could not find preset '");
            e.append(preset_name);
            e.append("'");
            proof {
                assert(e@ =~= "Could not find preset '"@.add(preset_name@).add("'"@));
            }
            return Result::Err(e);
        }
        let base = ConfigPreset::default();
        let s1 = base.override_with_opt(system_preset);
        let s2 = s1.override_with_opt(user_preset);
        let s3 = s2.override_with_opt(custom_preset);
        Result::Ok(s3.finalize())
    }
}

impl Default for ConfigPreset {
    /// The baseline preset: keep at least one generation.
    fn default() -> (r: ConfigPreset)
        ensures
            spec_default_preset(r@),
    {
        ConfigPreset {
            keep_min: Option::Some(1),
            keep_max: Option::None,
            keep_newer: Option::None,
            remove_older: Option::None,
            generations: Vec::new(),
            interactive: Option::None,
            _non_interactive: Option::None,
            gc: Option::None,
            gc_bigger: Option::None,
            gc_quota: Option::None,
            gc_modest: false,
        }
    }
}

} // verus!
