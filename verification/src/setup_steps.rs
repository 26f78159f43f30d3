//! The order of the first-launch environment setup, and which shell configs
//! a rollback restores.
use vstd::prelude::*;

use crate::commands::dev_server::strings_view;
use crate::env_setup::{CompetingManager, EnvSetupError};
use crate::text::str_eq;

verus! {

/// A step of the first-launch setup.
pub enum SetupStep {
    /// Put nodepilot's bin directory on the PATH.
    InjectPath,
    /// Comment out the competing managers' hooks.
    DisableHooks,
    /// Save the record of the disabled hooks, so that a rollback finds them;
    /// `disable_error` is what disabling failed with, reported once the
    /// record is saved.
    RecordDisabled { disable_error: Option<EnvSetupError> },
    /// Record that setup ran.
    WriteFlag,
}

/// What setup does after a step.
pub enum SetupNext {
    /// Run this step.
    Run(SetupStep),
    /// Setup is over, with this result.
    End(Result<(), EnvSetupError>),
}

/// The first step of setup.
pub fn first_setup_step() -> (s: SetupStep)
    ensures
        s is InjectPath,
{
    SetupStep::InjectPath
}

/// What follows a step with the given outcome. Setup stops at the first
/// failure, with its error; the one exception is that the record of the
/// disabled hooks is saved even when disabling failed, and that failure is
/// reported after it. The flag is written only when every earlier step
/// succeeded.
pub fn after_setup_step(step: SetupStep, outcome: Result<(), EnvSetupError>) -> (n: SetupNext)
    ensures
        match step {
            SetupStep::InjectPath => match outcome {
                Ok(()) => n matches SetupNext::Run(SetupStep::DisableHooks),
                Err(e) => n matches SetupNext::End(Err(x)) && x == e,
            },
            SetupStep::DisableHooks => n matches SetupNext::Run(
                SetupStep::RecordDisabled { disable_error: d },
            ) && d == match outcome {
                Ok(()) => None,
                Err(e) => Some(e),
            },
            SetupStep::RecordDisabled { disable_error } => match outcome {
                Err(e) => n matches SetupNext::End(Err(x)) && x == e,
                Ok(()) => match disable_error {
                    Some(e) => n matches SetupNext::End(Err(x)) && x == e,
                    None => n matches SetupNext::Run(SetupStep::WriteFlag),
                },
            },
            SetupStep::WriteFlag => n matches SetupNext::End(r) && r == outcome,
        },
{
    match step {
        SetupStep::InjectPath => match outcome {
            Ok(()) => SetupNext::Run(SetupStep::DisableHooks),
            Err(e) => SetupNext::End(Err(e)),
        },
        SetupStep::DisableHooks => SetupNext::Run(
            SetupStep::RecordDisabled {
                disable_error: match outcome {
                    Ok(()) => None,
                    Err(e) => Some(e),
                },
            },
        ),
        SetupStep::RecordDisabled { disable_error } => match outcome {
            Err(e) => SetupNext::End(Err(e)),
            Ok(()) => match disable_error {
                Some(e) => SetupNext::End(Err(e)),
                None => SetupNext::Run(SetupStep::WriteFlag),
            },
        },
        SetupStep::WriteFlag => SetupNext::End(outcome),
    }
}

/// The items of `s`, each once, in the order of their first occurrence.
pub open spec fn distinct_in_order(s: Seq<Seq<char>>) -> Seq<Seq<char>>
    decreases s.len(),
{
    if s.len() == 0 {
        Seq::empty()
    } else {
        let prev = distinct_in_order(s.drop_last());
        if prev.contains(s.last()) {
            prev
        } else {
            prev.push(s.last())
        }
    }
}

/// The config paths of a manager's disabled lines, one per line.
pub open spec fn disabled_config_paths(lines: Seq<(String, usize, String)>) -> Seq<Seq<char>> {
    lines.map_values(|l: (String, usize, String)| l.0@)
}

/// The shell configs in which a rollback restores a manager's hooks: those
/// of its disabled lines, each once, in the order of first mention.
pub fn configs_to_restore(m: &CompetingManager) -> (ps: Vec<String>)
    ensures
        strings_view(ps@) == distinct_in_order(disabled_config_paths(m.disabled_lines@)),
{
    let ghost all = disabled_config_paths(m.disabled_lines@);
    let mut ps: Vec<String> = Vec::new();
    let mut i: usize = 0;
    while i < m.disabled_lines.len()
        invariant
            i <= m.disabled_lines@.len(),
            all == disabled_config_paths(m.disabled_lines@),
            strings_view(ps@) == distinct_in_order(all.take(i as int)),
        decreases m.disabled_lines.len() - i,
    {
        let p = &m.disabled_lines[i].0;
        assert(all.take(i + 1).drop_last() =~= all.take(i as int));
        assert(all.take(i + 1).last() == p@);
        let ghost before = strings_view(ps@);
        let mut seen = false;
        let mut j: usize = 0;
        while j < ps.len()
            invariant
                j <= ps@.len(),
                before == strings_view(ps@),
                seen <==> exists|k: int| 0 <= k < j && before[k] == p@,
            decreases ps.len() - j,
        {
            if str_eq(ps[j].as_str(), p.as_str()) {
                assert(before[j as int] == p@);
                seen = true;
            }
            j += 1;
        }
        assert(seen <==> before.contains(p@));
        if !seen {
            ps.push(p.clone());
            assert(strings_view(ps@) =~= before.push(p@));
        }
        i += 1;
    }
    assert(all.take(m.disabled_lines@.len() as int) =~= all);
    ps
}

} // verus!
