//! Where the launcher looks for things: applications, icons, its caches and
//! its launch counters, from the XDG base directories.
use vstd::prelude::*;
use crate::config::{join, join_path};
use crate::icon::sanitized;
use crate::text::{chars_of, find_char, find_char_from, slice_chars, string_of};

verus! {

/// The search path used when `$XDG_DATA_DIRS` is unset.
pub open spec fn default_data_dirs() -> Seq<char> {
    "/usr/local/share:/usr/share"@
}

/// `s` split at each `:`, empty parts kept (what `str::split(':')` yields).
pub open spec fn split_colon(s: Seq<char>) -> Seq<Seq<char>>
    decreases s.len(),
{
    match find_char(s, ':') {
        Some(i) => if i < s.len() {
            seq![s.take(i as int)] + split_colon(s.skip(i as int + 1))
        } else {
            seq![s]
        },
        None => seq![s],
    }
}

/// The texts of a list of strings.
pub open spec fn texts(v: Seq<String>) -> Seq<Seq<char>> {
    v.map_values(|s: String| s@)
}

/// The text of an optional string.
pub open spec fn opt_text(o: Option<String>) -> Option<Seq<char>> {
    match o {
        Some(s) => Some(s@),
        None => None,
    }
}

/// The parts of `s` between colons.
pub fn split_colon_parts(s: &str) -> (r: Vec<String>)
    ensures
        texts(r@) == split_colon(s@),
{
    let cs = chars_of(s);
    let mut out: Vec<String> = Vec::new();
    let mut start: usize = 0;
    assert(cs@.skip(0) =~= cs@);
    loop
        invariant
            cs@ == s@,
            start <= cs.len(),
            split_colon(s@) == texts(out@) + split_colon(cs@.skip(start as int)),
        decreases cs.len() - start,
    {
        let ghost rest = cs@.skip(start as int);
        match find_char_from(&cs, ':', start) {
            Some(i) => {
                let part = string_of(&slice_chars(&cs, start, i));
                assert(part@ =~= rest.take((i - start) as int));
                assert(cs@.skip(i + 1) =~= rest.skip((i - start) + 1));
                let ghost before = out@;
                out.push(part);
                assert(texts(out@) =~= texts(before).push(part@));
                assert(texts(before) + (seq![part@] + split_colon(cs@.skip(i + 1))) =~= texts(out@)
                    + split_colon(cs@.skip(i + 1)));
                start = i + 1;
            },
            None => {
                let part = string_of(&slice_chars(&cs, start, cs.len()));
                assert(part@ =~= rest);
                let ghost before = out@;
                out.push(part);
                assert(texts(out@) =~= texts(before).push(part@));
                assert(texts(before) + seq![rest] =~= texts(out@));
                return out;
            },
        }
    }
}

/// The directories holding `.desktop` files: `applications` under the user's
/// data directory (`$XDG_DATA_HOME`, else `$HOME/.local/share`), then under
/// each directory of `$XDG_DATA_DIRS` (by default `/usr/local/share:/usr/share`).
pub open spec fn application_dirs_spec(
    data_home: Option<Seq<char>>,
    home: Option<Seq<char>>,
    data_dirs: Option<Seq<char>>,
) -> Seq<Seq<char>> {
    let user: Seq<Seq<char>> = match data_home {
        Some(d) => seq![join_path(d, "applications"@)],
        None => match home {
            Some(h) => seq![join_path(h, ".local/share/applications"@)],
            None => seq![],
        },
    };
    let bases = split_colon(
        match data_dirs {
            Some(d) => d,
            None => default_data_dirs(),
        },
    );
    user + bases.map_values(|b: Seq<char>| join_path(b, "applications"@))
}

/// The directories icon themes are looked up in: `icons` under the user's
/// data directory, `$HOME/.icons`, then `icons` and `pixmaps` under each
/// directory of `$XDG_DATA_DIRS`.
pub open spec fn icon_roots_spec(
    data_home: Option<Seq<char>>,
    home: Option<Seq<char>>,
    data_dirs: Option<Seq<char>>,
) -> Seq<Seq<char>> {
    let user: Seq<Seq<char>> = match data_home {
        Some(d) => seq![join_path(d, "icons"@)],
        None => match home {
            Some(h) => seq![join_path(h, ".local/share/icons"@)],
            None => seq![],
        },
    };
    let dot: Seq<Seq<char>> = match home {
        Some(h) => seq![join_path(h, ".icons"@)],
        None => seq![],
    };
    let bases = split_colon(
        match data_dirs {
            Some(d) => d,
            None => default_data_dirs(),
        },
    );
    user + dot + Seq::new(
        2 * bases.len(),
        |k: int| if k % 2 == 0 {
            join_path(bases[k / 2], "icons"@)
        } else {
            join_path(bases[k / 2], "pixmaps"@)
        },
    )
}

/// The base directory given by `base` (or the search path default).
fn data_dirs_or_default(data_dirs: Option<String>) -> (r: String)
    ensures
        r@ == match data_dirs {
            Some(d) => d@,
            None => default_data_dirs(),
        },
{
    proof {
        reveal_strlit("/usr/local/share:/usr/share");
    }
    match data_dirs {
        Some(d) => d,
        None => String::from_str("/usr/local/share:/usr/share"),
    }
}

/// The directories holding `.desktop` files; see `application_dirs_spec`.
pub fn application_dirs(data_home: Option<String>, home: Option<String>, data_dirs: Option<String>) -> (r: Vec<String>)
    ensures
        texts(r@) == application_dirs_spec(opt_text(data_home), opt_text(home), opt_text(data_dirs)),
{
    proof {
        reveal_strlit("applications");
        reveal_strlit(".local/share/applications");
    }
    let mut out: Vec<String> = Vec::new();
    match &data_home {
        Some(d) => out.push(join(d.as_str(), "applications")),
        None => match &home {
            Some(h) => out.push(join(h.as_str(), ".local/share/applications")),
            None => {},
        },
    }
    let ghost user = texts(out@);
    let bases = split_colon_parts(data_dirs_or_default(data_dirs).as_str());
    let ghost b = texts(bases@);
    let mut i: usize = 0;
    while i < bases.len()
        invariant
            i <= bases.len(),
            b == texts(bases@),
            texts(out@) == user + b.take(i as int).map_values(|x: Seq<char>| join_path(x, "applications"@)),
            "applications"@.len() > 0,
        decreases bases.len() - i,
    {
        let ghost before = texts(out@);
        out.push(join(bases[i].as_str(), "applications"));
        assert(texts(out@) =~= before.push(join_path(b[i as int], "applications"@)));
        assert(b.take(i + 1).map_values(|x: Seq<char>| join_path(x, "applications"@)) =~= b.take(
            i as int,
        ).map_values(|x: Seq<char>| join_path(x, "applications"@)).push(join_path(b[i as int], "applications"@)));
        i = i + 1;
    }
    assert(b.take(bases.len() as int) =~= b);
    out
}

/// The directories icon themes are looked up in; see `icon_roots_spec`.
pub fn icon_roots(data_home: Option<String>, home: Option<String>, data_dirs: Option<String>) -> (r: Vec<String>)
    ensures
        texts(r@) == icon_roots_spec(opt_text(data_home), opt_text(home), opt_text(data_dirs)),
{
    proof {
        reveal_strlit("icons");
        reveal_strlit("pixmaps");
        reveal_strlit(".icons");
        reveal_strlit(".local/share/icons");
    }
    let mut out: Vec<String> = Vec::new();
    match &data_home {
        Some(d) => out.push(join(d.as_str(), "icons")),
        None => match &home {
            Some(h) => out.push(join(h.as_str(), ".local/share/icons")),
            None => {},
        },
    }
    match &home {
        Some(h) => out.push(join(h.as_str(), ".icons")),
        None => {},
    }
    let ghost head = texts(out@);
    let bases = split_colon_parts(data_dirs_or_default(data_dirs).as_str());
    let ghost b = texts(bases@);
    let ghost f = |k: int| if k % 2 == 0 {
        join_path(b[k / 2], "icons"@)
    } else {
        join_path(b[k / 2], "pixmaps"@)
    };
    let mut i: usize = 0;
    while i < bases.len()
        invariant
            i <= bases.len(),
            b == texts(bases@),
            f == (|k: int| if k % 2 == 0 {
                join_path(b[k / 2], "icons"@)
            } else {
                join_path(b[k / 2], "pixmaps"@)
            }),
            texts(out@) == head + Seq::new(2 * i as nat, f),
            "icons"@.len() > 0,
            "pixmaps"@.len() > 0,
        decreases bases.len() - i,
    {
        let ghost before = texts(out@);
        out.push(join(bases[i].as_str(), "icons"));
        out.push(join(bases[i].as_str(), "pixmaps"));
        assert(f(2 * i as int) == join_path(b[i as int], "icons"@));
        assert(f(2 * i + 1) == join_path(b[i as int], "pixmaps"@));
        assert(Seq::new(2 * (i + 1) as nat, f) =~= Seq::new(2 * i as nat, f).push(f(2 * i as int)).push(
            f(2 * i + 1),
        ));
        assert(texts(out@) =~= before.push(f(2 * i as int)).push(f(2 * i + 1)));
        i = i + 1;
    }
    out
}

/// The user's cache directory: `$XDG_CACHE_HOME`, else `$HOME/.cache`, else `./.cache`.
pub open spec fn cache_dir_spec(cache_home: Option<Seq<char>>, home: Option<Seq<char>>) -> Seq<char> {
    match cache_home {
        Some(c) => c,
        None => join_path(
            match home {
                Some(h) => h,
                None => "."@,
            },
            ".cache"@,
        ),
    }
}

/// The user's cache directory; see `cache_dir_spec`.
pub fn cache_dir(cache_home: Option<String>, home: Option<String>) -> (r: String)
    ensures
        r@ == cache_dir_spec(opt_text(cache_home), opt_text(home)),
{
    proof {
        reveal_strlit(".cache");
        reveal_strlit(".");
    }
    match cache_home {
        Some(c) => c,
        None => {
            let h = match home {
                Some(h) => h,
                None => String::from_str("."),
            };
            join(h.as_str(), ".cache")
        },
    }
}

/// Where the rendered copy of icon `name` is cached:
/// `hyprlauncher/icons/<sanitized name>.png` in the cache directory.
pub open spec fn cached_icon_path_spec(cache_home: Option<Seq<char>>, home: Option<Seq<char>>, name: Seq<char>) -> Seq<char> {
    join_path(
        join_path(join_path(cache_dir_spec(cache_home, home), "hyprlauncher"@), "icons"@),
        sanitized(name) + ".png"@,
    )
}

/// Where the rendered copy of icon `name` is cached; see `cached_icon_path_spec`.
pub fn cached_icon_path(cache_home: Option<String>, home: Option<String>, name: &str) -> (r: String)
    ensures
        r@ == cached_icon_path_spec(opt_text(cache_home), opt_text(home), name@),
{
    proof {
        reveal_strlit("hyprlauncher");
        reveal_strlit("icons");
    }
    let file = crate::icon::cached_icon_file_name(name);
    proof {
        reveal_strlit(".png");
    }
    let dir = join(join(cache_dir(cache_home, home).as_str(), "hyprlauncher").as_str(), "icons");
    join(dir.as_str(), file.as_str())
}

/// The file the launch counters are kept in:
/// `$XDG_STATE_HOME/hyprlauncher/usage`, else
/// `$HOME/.local/state/hyprlauncher/usage`; none without either.
pub open spec fn state_file_spec(state_home: Option<Seq<char>>, home: Option<Seq<char>>) -> Option<Seq<char>> {
    match state_home {
        Some(s) => Some(join_path(join_path(s, "hyprlauncher"@), "usage"@)),
        None => match home {
            Some(h) => Some(
                join_path(join_path(join_path(join_path(h, ".local"@), "state"@), "hyprlauncher"@), "usage"@),
            ),
            None => None,
        },
    }
}

/// The file the launch counters are kept in; see `state_file_spec`.
pub fn state_file_path(state_home: Option<String>, home: Option<String>) -> (r: Option<String>)
    ensures
        opt_text(r) == state_file_spec(opt_text(state_home), opt_text(home)),
{
    proof {
        reveal_strlit("hyprlauncher");
        reveal_strlit("usage");
        reveal_strlit(".local");
        reveal_strlit("state");
    }
    match state_home {
        Some(s) => Some(join(join(s.as_str(), "hyprlauncher").as_str(), "usage")),
        None => match home {
            Some(h) => Some(
                join(join(join(join(h.as_str(), ".local").as_str(), "state").as_str(), "hyprlauncher").as_str(), "usage"),
            ),
            None => None,
        },
    }
}

} // verus!
