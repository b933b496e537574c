//! The command-line arguments, and which pane an update is for.
use vstd::prelude::*;

use crate::cache::{focused_matches, lemma_focused_match_after_write, payload_pane_id, plain_field};
use crate::payload::{payload_line, Payload};
use crate::event::{event_context, parse_event_json, EventError, PaneContext};

verus! {

/// Which terminal adapters `setup` installs.
#[derive(Clone, Debug)]
pub struct TerminalArgs {
    pub wezterm: bool,
    pub kitty: bool,
}

impl Default for TerminalArgs {
    fn default() -> (r: Self)
        ensures
            !r.wezterm && !r.kitty,
    {
        TerminalArgs { wezterm: false, kitty: false }
    }
}

/// The options of `setup`.
#[derive(Clone, Debug)]
pub struct SetupArgs {
    pub terminal: TerminalArgs,
    pub wezterm_config_dir: Option<String>,
    pub wezterm_config_file: Option<String>,
    pub kitty_config_dir: Option<String>,
    pub kitty_config_file: Option<String>,
    pub herdr: bool,
    pub herdr_bin: Option<String>,
    pub shell_hook: bool,
    pub no_shell_hook: bool,
    pub zshrc: Option<String>,
}

impl Default for SetupArgs {
    fn default() -> (r: Self)
        ensures
            !r.terminal.wezterm && !r.terminal.kitty,
            r.wezterm_config_dir is None && r.wezterm_config_file is None,
            r.kitty_config_dir is None && r.kitty_config_file is None,
            !r.herdr && r.herdr_bin is None,
            !r.shell_hook && !r.no_shell_hook && r.zshrc is None,
    {
        SetupArgs {
            terminal: TerminalArgs::default(),
            wezterm_config_dir: None,
            wezterm_config_file: None,
            kitty_config_dir: None,
            kitty_config_file: None,
            herdr: false,
            herdr_bin: None,
            shell_hook: false,
            no_shell_hook: false,
            zshrc: None,
        }
    }
}

/// The options of `update`.
#[derive(Clone, Debug)]
pub struct UpdateArgs {
    pub cache_dir: Option<String>,
    pub event_json: Option<String>,
    pub pane_id: Option<String>,
    pub cwd: Option<String>,
}

impl Default for UpdateArgs {
    fn default() -> (r: Self)
        ensures
            r.cache_dir is None && r.event_json is None && r.pane_id is None && r.cwd is None,
    {
        UpdateArgs { cache_dir: None, event_json: None, pane_id: None, cwd: None }
    }
}

/// Which cache files an update writes.
#[derive(Clone, Copy, Debug, PartialEq, Eq, Structural)]
pub enum CacheWrite {
    /// The global, per-pane and per-directory files.
    Default,
    /// Those, and the file of the pane that Herdr has focused.
    HerdrFocused,
}

/// An update rewrites the focused cache file, given what that file holds
/// (if it exists): an update from Herdr's focus always does, another one
/// only where the file names the updated pane.
pub open spec fn refreshes_focused(write: CacheWrite, focused_contents: Option<Seq<char>>, pane_id: Seq<char>) -> bool {
    match write {
        CacheWrite::HerdrFocused => true,
        CacheWrite::Default => match focused_contents {
            Some(c) => payload_pane_id(c) == Some(pane_id),
            None => false,
        },
    }
}

/// Whether an update rewrites the focused cache file, given for a default
/// write what that file holds (if it exists).
pub fn rewrites_focused(write: CacheWrite, focused_contents: Option<&str>, pane_id: &str) -> (r: bool)
    ensures
        r == refreshes_focused(write, opt_str_view(focused_contents), pane_id@),
{
    match write {
        CacheWrite::HerdrFocused => true,
        CacheWrite::Default => focused_matches(focused_contents, pane_id),
    }
}

/// An update given on the command line refreshes the focused cache file,
/// last written from payload `p`, exactly when it is for `p`'s pane, so the
/// focused file of another pane stays as it was; an update from Herdr's
/// focus always writes it.
pub proof fn lemma_explicit_update_refreshes_own_pane(p: Payload, q: Seq<char>)
    requires
        plain_field(p.pane_id@),
    ensures
        refreshes_focused(CacheWrite::Default, Some(payload_line(p)), q) == (q == p.pane_id@),
        refreshes_focused(CacheWrite::HerdrFocused, Some(payload_line(p)), q),
{
    lemma_focused_match_after_write(p, q);
}

/// The pane an update is for, and how its status is cached.
#[derive(Debug)]
pub struct ResolvedContext {
    pub context: PaneContext,
    pub cache_write: CacheWrite,
}

/// Why the pane of an update could not be determined.
#[derive(Debug)]
pub enum CliError {
    /// Only one of `--pane-id` and `--cwd` was given.
    PartialExplicitContext,
    /// An event could not be read.
    Event(EventError),
}

/// What an update resolves to: `Err(())` for a partial explicit context,
/// `Ok(None)` for an unreadable event, `Ok(Some(None))` for no pane, and
/// `Ok(Some(Some((pane, cwd, write))))` for a pane.
pub open spec fn resolution(
    pane_id: Option<Seq<char>>,
    cwd: Option<Seq<char>>,
    event_json: Option<Seq<char>>,
    env_event_json: Option<Seq<char>>,
) -> Result<Option<Option<(Seq<char>, Seq<char>, CacheWrite)>>, ()> {
    match (pane_id, cwd) {
        (Some(p), Some(c)) => Ok(Some(Some((p, c, CacheWrite::Default)))),
        (None, None) => {
            let from_arg = match event_json {
                Some(j) => event_context(j),
                None => Some(None),
            };
            match from_arg {
                None => Ok(None),
                Some(Some((p, c))) => Ok(Some(Some((p, c, CacheWrite::HerdrFocused)))),
                Some(None) => {
                    let from_env = match env_event_json {
                        Some(j) => event_context(j),
                        None => Some(None),
                    };
                    match from_env {
                        None => Ok(None),
                        Some(Some((p, c))) => Ok(Some(Some((p, c, CacheWrite::HerdrFocused)))),
                        Some(None) => Ok(Some(None)),
                    }
                },
            }
        },
        _ => Err(()),
    }
}

pub open spec fn opt_view(o: Option<String>) -> Option<Seq<char>> {
    match o {
        Some(s) => Some(s@),
        None => None,
    }
}

pub open spec fn opt_str_view(o: Option<&str>) -> Option<Seq<char>> {
    match o {
        Some(s) => Some(s@),
        None => None,
    }
}

/// `r` is the outcome that `spec` describes.
pub open spec fn resolution_is(
    r: Result<Option<ResolvedContext>, CliError>,
    spec: Result<Option<Option<(Seq<char>, Seq<char>, CacheWrite)>>, ()>,
) -> bool {
    match spec {
        Err(()) => r matches Err(CliError::PartialExplicitContext),
        Ok(None) => r matches Err(CliError::Event(_)),
        Ok(Some(None)) => r matches Ok(None),
        Ok(Some(Some((p, c, w)))) => r matches Ok(Some(rc)) && rc.context.pane_id@ == p
            && rc.context.cwd@ == c && rc.cache_write == w,
    }
}

fn context_from_event(json: &str) -> (r: Result<Option<ResolvedContext>, CliError>)
    ensures
        match event_context(json@) {
            None => r matches Err(CliError::Event(_)),
            Some(None) => r matches Ok(None),
            Some(Some((p, c))) => r matches Ok(Some(rc)) && rc.context.pane_id@ == p
                && rc.context.cwd@ == c && rc.cache_write == CacheWrite::HerdrFocused,
        },
{
    match parse_event_json(json) {
        Err(e) => Err(CliError::Event(e)),
        Ok(None) => Ok(None),
        Ok(Some(context)) => Ok(Some(ResolvedContext { context, cache_write: CacheWrite::HerdrFocused })),
    }
}

/// The pane an update is for: the explicit `--pane-id` and `--cwd` when both
/// are given (refused when only one is), else the pane named by
/// `--event-json`, else the one named by the `HERDR_PLUGIN_EVENT_JSON` event
/// given as `env_event_json`; an event, once read, is cached for Herdr's focus.
pub fn resolve_update_context(args: &UpdateArgs, env_event_json: Option<&str>) -> (r: Result<
    Option<ResolvedContext>,
    CliError,
>)
    ensures
        resolution_is(
            r,
            resolution(
                opt_view(args.pane_id),
                opt_view(args.cwd),
                opt_view(args.event_json),
                opt_str_view(env_event_json),
            ),
        ),
{
    match (&args.pane_id, &args.cwd) {
        (Some(pane_id), Some(cwd)) => {
            return Ok(
                Some(
                    ResolvedContext {
                        context: PaneContext { pane_id: pane_id.clone(), cwd: cwd.clone() },
                        cache_write: CacheWrite::Default,
                    },
                ),
            );
        },
        (None, None) => {},
        _ => {
            return Err(CliError::PartialExplicitContext);
        },
    }
    if let Some(json) = &args.event_json {
        let found = context_from_event(json.as_str());
        match found {
            Ok(None) => {},
            _ => {
                return found;
            },
        }
    }
    if let Some(json) = env_event_json {
        return context_from_event(json);
    }
    Ok(None)
}

} // verus!
