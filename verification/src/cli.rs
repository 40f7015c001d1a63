//! The command line: an optional `--config <path>` and an optional
//! Prometheus address that overrides the settings.

use vstd::prelude::*;
use crate::config::Config;
use crate::loki::texts_view;
use crate::text::text_eq;

verus! {

/// What the command line asks for.
#[derive(Debug)]
pub struct CliArgs {
    /// The settings file to read.
    pub config_path: String,
    /// The Prometheus address to use in place of the configured one.
    pub base_url: Option<String>,
}

/// The arguments `args` read after a settings path `path` and an address
/// `base` were taken: `--config` takes the next argument as the path, any
/// other argument is the address; the last of each wins.
pub open spec fn read_args(args: Seq<Seq<char>>, path: Seq<char>, base: Option<Seq<char>>) -> Result<
    (Seq<char>, Option<Seq<char>>),
    Seq<char>,
>
    decreases args.len(),
{
    if args.len() == 0 {
        Ok((path, base))
    } else if args[0] == "--config"@ {
        if args.len() < 2 {
            Err("missing path after --config"@)
        } else {
            read_args(args.skip(2), args[1], base)
        }
    } else {
        read_args(args.skip(1), path, Some(args[0]))
    }
}

/// What the command line asks for, as texts.
pub open spec fn cli_view(r: Result<CliArgs, String>) -> Result<(Seq<char>, Option<Seq<char>>), Seq<char>> {
    match r {
        Ok(a) => Ok(
            (
                a.config_path@,
                match a.base_url {
                    Some(u) => Some(u@),
                    None => None,
                },
            ),
        ),
        Err(e) => Err(e@),
    }
}

/// Reads the command line; the settings file is `cranberry.toml` unless
/// `--config` names another.
pub fn parse_args(args: Vec<String>) -> (r: Result<CliArgs, String>)
    ensures
        cli_view(r) == read_args(texts_view(args@), "cranberry.toml"@, None),
{
    let ghost all = texts_view(args@);
    let mut path = String::from_str("cranberry.toml");
    let mut base: Option<String> = None;
    let mut i: usize = 0;
    assert(all.skip(0) =~= all);
    while i < args.len()
        invariant
            0 <= i <= args.len(),
            all == texts_view(args@),
            read_args(all, "cranberry.toml"@, None) == read_args(
                all.skip(i as int),
                path@,
                match base {
                    Some(u) => Some(u@),
                    None => None,
                },
            ),
        decreases args.len() - i,
    {
        let ghost rest = all.skip(i as int);
        assert(rest[0] == args@[i as int]@);
        if text_eq(args[i].as_str(), "--config") {
            if i + 1 >= args.len() {
                assert(rest.len() < 2);
                return Err(String::from_str("missing path after --config"));
            }
            assert(rest[1] == args@[i + 1]@);
            assert(rest.skip(2) =~= all.skip(i + 2));
            path = args[i + 1].clone();
            i += 2;
        } else {
            assert(rest.skip(1) =~= all.skip(i + 1));
            base = Some(args[i].clone());
            i += 1;
        }
    }
    Ok(CliArgs { config_path: path, base_url: base })
}

/// The settings with the Prometheus address of the command line, when it
/// gave one.
pub fn apply_base_url_override(config: Config, base_url: Option<String>) -> (c: Config)
    ensures
        c.prometheus.base_url == match base_url {
            Some(u) => Some(u),
            None => config.prometheus.base_url,
        },
        c.loki == config.loki,
        c.display == config.display,
        c.logging == config.logging,
{
    let mut c = config;
    if base_url.is_some() {
        c.prometheus.base_url = base_url;
    }
    c
}

} // verus!
