//! Settings: the panel size, the number of results, and where the palette is.
use vstd::prelude::*;
use crate::num::{parse_unsigned, parse_unsigned_chars};
use crate::style::surface;
use crate::text::{chars_eq_str, chars_of, string_of};

verus! {

/// The launcher's settings.
#[derive(Debug, Clone)]
pub struct Config {
    pub width: u32,
    pub height: u32,
    pub max_results: usize,
    /// The path of hyprcolor's `colors.json`.
    pub hyprcolor_json: String,
}

/// `base` joined with the relative path `comp` (what `Path::join` gives for a
/// relative, non-empty component).
pub open spec fn join_path(base: Seq<char>, comp: Seq<char>) -> Seq<char> {
    if base.len() == 0 {
        comp
    } else if base.last() == '/' {
        base + comp
    } else {
        base + seq!['/'] + comp
    }
}

/// Where hyprcolor's palette is: `colors.json` in the `hyprcolors` directory
/// of the cache directory (`$XDG_CACHE_HOME`, else `$HOME/.cache`, else `./.cache`).
pub open spec fn hyprcolor_path(cache_home: Option<Seq<char>>, home: Option<Seq<char>>) -> Seq<char> {
    match cache_home {
        Some(c) => join_path(join_path(c, "hyprcolors"@), "colors.json"@),
        None => {
            let h = match home {
                Some(h) => h,
                None => "."@,
            };
            join_path(join_path(join_path(h, ".cache"@), "hyprcolors"@), "colors.json"@)
        },
    }
}

/// `base` joined with `comp`.
pub fn join(base: &str, comp: &str) -> (r: String)
    requires
        comp@.len() > 0,
    ensures
        r@ == join_path(base@, comp@),
{
    let b = chars_of(base);
    let c = chars_of(comp);
    let mut out = b.clone();
    assert(out@ == b@);
    if b.len() > 0 && b[b.len() - 1] != '/' {
        out.push('/');
    }
    let mut i: usize = 0;
    let ghost start = out@;
    while i < c.len()
        invariant
            i <= c.len(),
            out@ == start + c@.take(i as int),
        decreases c.len() - i,
    {
        out.push(c[i]);
        assert(c@.take(i + 1) =~= c@.take(i as int).push(c@[i as int]));
        i = i + 1;
    }
    assert(c@.take(c.len() as int) =~= c@);
    string_of(&out)
}

/// Where hyprcolor's palette is, given `$XDG_CACHE_HOME` and `$HOME`.
pub fn default_hyprcolor_json(cache_home: Option<String>, home: Option<String>) -> (r: String)
    ensures
        r@ == hyprcolor_path(
            match cache_home {
                Some(c) => Some(c@),
                None => None,
            },
            match home {
                Some(h) => Some(h@),
                None => None,
            },
        ),
{
    proof {
        reveal_strlit("hyprcolors");
        reveal_strlit("colors.json");
        reveal_strlit(".cache");
    }
    match cache_home {
        Some(c) => join(join(c.as_str(), "hyprcolors").as_str(), "colors.json"),
        None => {
            let h = match home {
                Some(h) => h,
                None => String::from_str("."),
            };
            join(join(join(h.as_str(), ".cache").as_str(), "hyprcolors").as_str(), "colors.json")
        },
    }
}

/// The settings as values.
pub struct ConfigView {
    pub width: u32,
    pub height: u32,
    pub max_results: usize,
    pub hyprcolor_json: Seq<char>,
}

impl Config {
    pub open spec fn view(&self) -> ConfigView {
        ConfigView {
            width: self.width,
            height: self.height,
            max_results: self.max_results,
            hyprcolor_json: self.hyprcolor_json@,
        }
    }

    /// The default settings, with the palette at `hyprcolor_json`.
    pub fn load(hyprcolor_json: String) -> (r: Self)
        ensures
            r.width == surface::WIDTH_HINT,
            r.height == surface::HEIGHT_HINT,
            r.max_results == usize::MAX,
            r.hyprcolor_json == hyprcolor_json,
    {
        Config {
            width: surface::WIDTH_HINT,
            height: surface::HEIGHT_HINT,
            max_results: usize::MAX,
            hyprcolor_json,
        }
    }
}

/// The larger of two numbers.
pub open spec fn max_int(a: int, b: int) -> int {
    if a >= b {
        a
    } else {
        b
    }
}

/// The settings after the command line `args` (program name excluded):
/// `--max-results N` (at least 1), `--width N` (at least 360), `--height N`
/// (at least 240) and `--hyprcolor PATH`; each option takes the next word as
/// its value, a value that is not a number is skipped with it, and other
/// words are ignored.
pub open spec fn apply_args(c: ConfigView, args: Seq<Seq<char>>) -> ConfigView
    decreases args.len(),
{
    if args.len() == 0 {
        c
    } else if args.len() == 1 {
        c
    } else {
        let a = args[0];
        let v = args[1];
        let rest = args.skip(2);
        if a == "--max-results"@ {
            match parse_unsigned(v, 10, usize::MAX as nat) {
                Some(n) => apply_args(ConfigView { max_results: max_int(n as int, 1) as usize, ..c }, rest),
                None => apply_args(c, rest),
            }
        } else if a == "--width"@ {
            match parse_unsigned(v, 10, u32::MAX as nat) {
                Some(n) => apply_args(ConfigView { width: max_int(n as int, 360) as u32, ..c }, rest),
                None => apply_args(c, rest),
            }
        } else if a == "--height"@ {
            match parse_unsigned(v, 10, u32::MAX as nat) {
                Some(n) => apply_args(ConfigView { height: max_int(n as int, 240) as u32, ..c }, rest),
                None => apply_args(c, rest),
            }
        } else if a == "--hyprcolor"@ {
            apply_args(ConfigView { hyprcolor_json: v, ..c }, rest)
        } else {
            apply_args(c, args.drop_first())
        }
    }
}

/// The settings after the command line `args` (program name excluded); see `apply_args`.
pub fn config_from_args(config: Config, args: Vec<String>) -> (r: Config)
    ensures
        r.view() == apply_args(config.view(), args@.map_values(|s: String| s@)),
{
    let ghost all = args@.map_values(|s: String| s@);
    let ghost target = apply_args(config.view(), all);
    let mut config = config;
    let mut i: usize = 0;
    assert(all.skip(0) =~= all);
    while i < args.len()
        invariant
            all == args@.map_values(|s: String| s@),
            all.len() == args@.len(),
            i <= args.len(),
            target == apply_args(config.view(), all.skip(i as int)),
        decreases args.len() - i,
    {
        let ghost rest = all.skip(i as int);
        if i + 1 >= args.len() {
            assert(rest.len() == 1);
            i = args.len();
            assert(all.skip(i as int).len() == 0);
        } else {
            let a = chars_of(args[i].as_str());
            let v = chars_of(args[i + 1].as_str());
            assert(rest[0] == a@ && rest[1] == v@);
            assert(rest.skip(2) =~= all.skip(i + 2));
            assert(rest.drop_first() =~= all.skip(i + 1));
            if chars_eq_str(&a, "--max-results") {
                if let Some(n) = parse_unsigned_chars(&v, 10, usize::MAX as u64) {
                    config.max_results = if n >= 1 {
                        n as usize
                    } else {
                        1
                    };
                }
                i = i + 2;
            } else if chars_eq_str(&a, "--width") {
                if let Some(n) = parse_unsigned_chars(&v, 10, 0xffff_ffff) {
                    config.width = if n >= 360 {
                        n as u32
                    } else {
                        360
                    };
                }
                i = i + 2;
            } else if chars_eq_str(&a, "--height") {
                if let Some(n) = parse_unsigned_chars(&v, 10, 0xffff_ffff) {
                    config.height = if n >= 240 {
                        n as u32
                    } else {
                        240
                    };
                }
                i = i + 2;
            } else if chars_eq_str(&a, "--hyprcolor") {
                config.hyprcolor_json = args[i + 1].clone();
                i = i + 2;
            } else {
                i = i + 1;
            }
        }
    }
    config
}

} // verus!
