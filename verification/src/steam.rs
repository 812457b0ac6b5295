//! Steam launch support: percent-encoding of launch arguments, library
//! discovery from the `libraryfolders` index, and the installed-game
//! decision. Paths here are plain display strings; the shell probes the
//! disk and hands the outcomes in.

use vstd::prelude::*;
use vstd::string::StringSliceAdditionalSpecFns;

use crate::text::chars_to_string;
use crate::text::str_chars;
use crate::text::str_eq;
use crate::weapons::push_str_chars;

verus! {

/// The hexadecimal digit character for a value below sixteen.
pub open spec fn hex_char(d: nat) -> char {
    if d < 10 {
        crate::text::digit_char(d)
    } else if d == 10 {
        'A'
    } else if d == 11 {
        'B'
    } else if d == 12 {
        'C'
    } else if d == 13 {
        'D'
    } else if d == 14 {
        'E'
    } else {
        'F'
    }
}

/// Whether a byte stays raw in an encoded launch argument: ASCII
/// alphanumerics and a small set of marks.
pub open spec fn keep_raw(b: u8) -> bool {
    (b >= 0x30 && b <= 0x39) || (b >= 0x41 && b <= 0x5a) || (b >= 0x61 && b <= 0x7a) || b == 0x2d
        || b == 0x2e || b == 0x5f || b == 0x7e || b == 0x3d || b == 0x3a || b == 0x2b || b == 0x2f
        || b == 0x2c
}

/// The percent-encoding of a byte sequence under the launch-argument
/// rules: raw bytes kept as their characters, all others as `%XX`.
pub open spec fn g_encoded(bs: Seq<u8>) -> Seq<char>
    decreases bs.len(),
{
    if bs.len() == 0 {
        Seq::empty()
    } else {
        let b = bs.last();
        g_encoded(bs.drop_last()) + (if keep_raw(b) {
            seq![b as char]
        } else {
            seq!['%', hex_char((b / 16) as nat), hex_char((b % 16) as nat)]
        })
    }
}

fn hex_digit(d: u8) -> (c: char)
    requires
        d < 16,
    ensures
        c == hex_char(d as nat),
{
    if d < 10 {
        crate::text::dec_chars(d as u64)[0]
    } else if d == 10 {
        'A'
    } else if d == 11 {
        'B'
    } else if d == 12 {
        'C'
    } else if d == 13 {
        'D'
    } else if d == 14 {
        'E'
    } else {
        'F'
    }
}

/// Percent-encodes a launch-argument string, byte by byte: ASCII
/// alphanumerics and the marks `-._~=:+/,` stay raw, every other byte
/// becomes `%XX` with uppercase hexadecimal digits.
pub fn encode_launch_args(input: &str) -> (r: String)
    ensures
        r@ == g_encoded(input.spec_bytes()),
{
    let bytes = input.as_bytes_vec();
    let mut out: Vec<char> = Vec::new();
    let mut i: usize = 0;
    proof {
        assert(bytes@.subrange(0, 0) =~= Seq::<u8>::empty());
        assert(out@ =~= g_encoded(Seq::<u8>::empty()));
    }
    while i < bytes.len()
        invariant
            i <= bytes.len(),
            bytes@ == input.spec_bytes(),
            out@ == g_encoded(bytes@.subrange(0, i as int)),
        decreases bytes.len() - i,
    {
        let ghost pre = bytes@.subrange(0, i as int);
        let ghost post = bytes@.subrange(0, i as int + 1);
        proof {
            assert(post.drop_last() =~= pre);
            assert(post.last() == bytes@[i as int]);
        }
        let b = bytes[i];
        let raw = (b >= 0x30 && b <= 0x39) || (b >= 0x41 && b <= 0x5a) || (b >= 0x61 && b
            <= 0x7a) || b == 0x2d || b == 0x2e || b == 0x5f || b == 0x7e || b == 0x3d || b == 0x3a
            || b == 0x2b || b == 0x2f || b == 0x2c;
        if raw {
            out.push(b as char);
            proof {
                assert(out@ =~= g_encoded(pre) + seq![bytes@[i as int] as char]);
            }
        } else {
            out.push('%');
            out.push(hex_digit(b / 16));
            out.push(hex_digit(b % 16));
            proof {
                assert(out@ =~= g_encoded(pre) + seq![
                    '%',
                    hex_char((bytes@[i as int] / 16) as nat),
                    hex_char((bytes@[i as int] % 16) as nat),
                ]);
            }
        }
        i = i + 1;
    }
    proof {
        assert(bytes@.subrange(0, bytes@.len() as int) =~= bytes@);
    }
    chars_to_string(&out)
}

/// Builds the launch URL for an argument text: the plain run URL when
/// the trimmed text is empty, else the run URL followed by the encoding
/// of the trimmed text's bytes.
pub fn steam_launch_url(args_text: &str) -> (r: String)
    ensures
        ({
            let t = crate::text::trimmed(args_text@);
            t.len() == 0 ==> r@ == "steam://run/270150/"@
        }),
        ({
            let t = crate::text::trimmed(args_text@);
            t.len() > 0 ==> exists|ts: &str|
                ts@ == t && r@ == "steam://run/270150//"@ + g_encoded(ts.spec_bytes())
        }),
{
    let chars = str_chars(args_text);
    let t = crate::text::trim_chars(&chars);
    if t.len() == 0 {
        return String::from_str("steam://run/270150/");
    }
    let ts = chars_to_string(&t);
    let ts_str = ts.as_str();
    let encoded = encode_launch_args(ts_str);
    let mut out: Vec<char> = Vec::new();
    push_str_chars(&mut out, "steam://run/270150//");
    push_str_chars(&mut out, encoded.as_str());
    proof {
        assert(Seq::<char>::empty() + "steam://run/270150//"@ =~= "steam://run/270150//"@);
        assert(out@ == "steam://run/270150//"@ + g_encoded(ts_str.spec_bytes()));
        assert(ts_str@ == crate::text::trimmed(args_text@));
    }
    chars_to_string(&out)
}

/// The manifest path of the game under one Steam library root.
pub fn appmanifest_path_for_root(steam_root: &str) -> (r: String)
    ensures
        r@ == steam_root@ + "/steamapps/appmanifest_270150.acf"@,
{
    let mut out: Vec<char> = Vec::new();
    push_str_chars(&mut out, steam_root);
    push_str_chars(&mut out, "/steamapps/appmanifest_270150.acf");
    proof {
        assert(Seq::<char>::empty() + steam_root@ =~= steam_root@);
    }
    chars_to_string(&out)
}

/// One doubled backslash collapsed throughout, reading left to right.
pub open spec fn g_unescaped(s: Seq<char>) -> Seq<char>
    decreases s.len(),
{
    if s.len() == 0 {
        s
    } else if s.len() >= 2 && s[0] == '\\' && s[1] == '\\' {
        seq!['\\'] + g_unescaped(s.subrange(2, s.len() as int))
    } else {
        seq![s[0]] + g_unescaped(s.subrange(1, s.len() as int))
    }
}

/// Collapses doubled backslashes.
fn unescape_backslashes(v: &Vec<char>) -> (r: Vec<char>)
    ensures
        r@ == g_unescaped(v@),
{
    let mut out: Vec<char> = Vec::new();
    let mut i: usize = 0;
    proof {
        assert(v@.subrange(0, v@.len() as int) =~= v@);
    }
    while i < v.len()
        invariant
            i <= v.len(),
            g_unescaped(v@) == out@ + g_unescaped(v@.subrange(i as int, v@.len() as int)),
        decreases v.len() - i,
    {
        let ghost tail = v@.subrange(i as int, v@.len() as int);
        proof {
            assert(tail[0] == v@[i as int]);
            if tail.len() >= 2 {
                assert(tail[1] == v@[i as int + 1]);
            }
            assert(tail.subrange(1, tail.len() as int) =~= v@.subrange(
                i as int + 1,
                v@.len() as int,
            ));
            if tail.len() >= 2 {
                assert(tail.subrange(2, tail.len() as int) =~= v@.subrange(
                    i as int + 2,
                    v@.len() as int,
                ));
            }
        }
        if i + 1 < v.len() && v[i] == '\\' && v[i + 1] == '\\' {
            let ghost m0 = out@;
            out.push('\\');
            proof {
                assert(out@ =~= m0 + seq!['\\']);
                assert((m0 + seq!['\\']) + g_unescaped(
                    v@.subrange(i as int + 2, v@.len() as int),
                ) =~= m0 + (seq!['\\'] + g_unescaped(v@.subrange(i as int + 2, v@.len() as int))));
            }
            i = i + 2;
        } else {
            let ghost m0 = out@;
            out.push(v[i]);
            proof {
                assert(out@ =~= m0 + seq![v@[i as int]]);
                assert((m0 + seq![v@[i as int]]) + g_unescaped(
                    v@.subrange(i as int + 1, v@.len() as int),
                ) =~= m0 + (seq![v@[i as int]] + g_unescaped(
                    v@.subrange(i as int + 1, v@.len() as int),
                )));
            }
            i = i + 1;
        }
    }
    proof {
        assert(v@.subrange(i as int, v@.len() as int).len() == 0);
        assert(g_unescaped(v@.subrange(i as int, v@.len() as int)) =~= Seq::<char>::empty());
        assert(out@ + Seq::<char>::empty() =~= out@);
    }
    out
}

/// Whether `v` holds the text `s`.
pub open spec fn g_has_str(v: Seq<Seq<char>>, s: Seq<char>) -> bool {
    exists|i: int| 0 <= i < v.len() && v[i] == s
}

/// The library path named by one index line, when its trimmed text
/// starts with the quoted `path` key and carries a quoted value.
pub open spec fn g_vdf_line_value(line: Seq<char>) -> Option<Seq<char>> {
    let t = crate::text::trimmed(line);
    if t.len() >= 6 && t.subrange(0, 6) == "\"path\""@ {
        let rest = crate::text::trimmed(t.subrange(6, t.len() as int));
        match crate::text::first_match(rest, "\""@, 0) {
            Some(a) => {
                let after = rest.subrange(a + 1, rest.len() as int);
                match crate::text::first_match(after, "\""@, 0) {
                    Some(b) => Some(g_unescaped(after.subrange(0, b))),
                    None => None,
                }
            },
            None => None,
        }
    } else {
        None
    }
}

/// The paths named by the index lines, first occurrences in line order.
pub open spec fn g_vdf_paths(lines: Seq<Seq<char>>) -> Seq<Seq<char>>
    decreases lines.len(),
{
    if lines.len() == 0 {
        Seq::empty()
    } else {
        let r = g_vdf_paths(lines.drop_last());
        match g_vdf_line_value(lines.last()) {
            Some(p) => if g_has_str(r, p) {
                r
            } else {
                r.push(p)
            },
            None => r,
        }
    }
}

/// Extracts the library paths named by a `libraryfolders` index: every
/// line whose trimmed text starts with the quoted `path` key yields its
/// quoted value, doubled backslashes collapsed, in line order,
/// de-duplicated.
pub fn parse_libraryfolders_paths(vdf_text: &str) -> (r: Vec<String>)
    ensures
        ({
            let raw = crate::ping::g_lines(vdf_text@);
            let kept = if raw.last().len() == 0 {
                raw.drop_last()
            } else {
                raw
            };
            r@.map_values(|s: String| s@) == g_vdf_paths(
                kept.map_values(|l: Seq<char>| crate::ping::g_strip_cr(l)),
            )
        }),
{
    let lines = crate::ping::split_lines(vdf_text);
    let ghost glines = lines@.map_values(|v: Vec<char>| v@);
    let mut out: Vec<String> = Vec::new();
    let mut i: usize = 0;
    let quote = str_chars("\"");
    let key = str_chars("\"path\"");
    proof {
        reveal_strlit("\"");
        reveal_strlit("\"path\"");
        assert(quote@.len() == 1);
        assert(key@.len() == 6);
        assert(glines.subrange(0, 0) =~= Seq::<Seq<char>>::empty());
        assert(out@.map_values(|s: String| s@) =~= g_vdf_paths(glines.subrange(0, 0)));
    }
    while i < lines.len()
        invariant
            i <= lines.len(),
            glines == lines@.map_values(|v: Vec<char>| v@),
            glines.len() == lines@.len(),
            quote@ == "\""@,
            quote@.len() == 1,
            key@ == "\"path\""@,
            key@.len() == 6,
            out@.map_values(|s: String| s@) == g_vdf_paths(glines.subrange(0, i as int)),
        decreases lines.len() - i,
    {
        let ghost pre = glines.subrange(0, i as int);
        let ghost post = glines.subrange(0, i as int + 1);
        proof {
            assert(post.drop_last() =~= pre);
            assert(post.last() == glines[i as int]);
        }
        let t = crate::text::trim_chars(&lines[i]);
        if t.len() >= key.len() && crate::text::match_chars(&t, &key, 0) {
            proof {
                assert(t@.subrange(0, 6) == key@);
            }
            let nt = t.len();
            let rest_raw = crate::text::slice_chars(&t, key.len(), nt);
            let rest = crate::text::trim_chars(&rest_raw);
            proof {
                assert(rest_raw@ =~= t@.subrange(6, t@.len() as int));
            }
            match crate::text::find_sub(&rest, &quote, 0) {
                Some(a) => {
                    let nrest = rest.len();
                    let after = crate::text::slice_chars(&rest, a + 1, nrest);
                    proof {
                        assert(after@ =~= rest@.subrange(a + 1, rest@.len() as int));
                    }
                    match crate::text::find_sub(&after, &quote, 0) {
                        Some(b) => {
                            let raw = crate::text::slice_chars(&after, 0, b);
                            let val = unescape_backslashes(&raw);
                            let s = chars_to_string(&val);
                            proof {
                                assert(g_vdf_line_value(glines[i as int]) == Some(s@));
                            }
                            // de-duplicate
                            let mut dup = false;
                            let mut j: usize = 0;
                            while j < out.len()
                                invariant
                                    j <= out@.len(),
                                    dup ==> g_has_str(
                                        out@.map_values(|x: String| x@),
                                        s@,
                                    ),
                                    !dup ==> forall|m: int|
                                        0 <= m < j ==> (#[trigger] out@[m])@ != s@,
                                decreases out.len() - j,
                            {
                                if str_eq(out[j].as_str(), s.as_str()) {
                                    dup = true;
                                    proof {
                                        assert(out@.map_values(|x: String| x@)[j as int] == s@);
                                    }
                                    j = out.len();
                                } else {
                                    j = j + 1;
                                }
                            }
                            if !dup {
                                proof {
                                    assert(!g_has_str(out@.map_values(|x: String| x@), s@)) by {
                                        if g_has_str(out@.map_values(|x: String| x@), s@) {
                                            let mapped = out@.map_values(|x: String| x@);
                                            let m = choose|m: int|
                                                0 <= m < mapped.len() && #[trigger] mapped[m]
                                                    == s@;
                                            assert(out@[m]@ == s@);
                                        }
                                    }
                                }
                                let ghost m0 = out@.map_values(|x: String| x@);
                                out.push(s);
                                proof {
                                    assert(out@.map_values(|x: String| x@) =~= m0.push(
                                        out@.last()@,
                                    ));
                                }
                            }
                        },
                        None => {
                            proof {
                                assert(g_vdf_line_value(glines[i as int]) is None);
                            }
                        },
                    }
                },
                None => {
                    proof {
                        assert(g_vdf_line_value(glines[i as int]) is None);
                    }
                },
            }
        } else {
            proof {
                assert(g_vdf_line_value(glines[i as int]) is None) by {
                    let tt = crate::text::trimmed(glines[i as int]);
                    if tt.len() >= 6 && tt.subrange(0, 6) == "\"path\""@ {
                        assert(crate::text::match_at(tt, key@, 0));
                    }
                }
            }
        }
        i = i + 1;
    }
    proof {
        assert(glines.subrange(0, glines.len() as int) =~= glines);
    }
    out
}

/// One probed Steam root: its path, whether it exists, and the text of
/// its `libraryfolders` index when one could be read.
pub struct SteamRootProbe {
    pub root: String,
    pub exists: bool,
    pub vdf_text: Option<String>,
}

/// The library roots discovered under one Steam root: the root itself,
/// then the paths its index names, de-duplicated in that order; the root
/// alone when no index could be read.
pub fn discover_library_roots(steam_root: &str, vdf_text: Option<&String>) -> (r: Vec<String>)
    ensures
        r@.len() >= 1,
        r@[0]@ == steam_root@,
        vdf_text is None ==> r@.len() == 1,
        forall|a: int, b: int| 0 <= a < b < r@.len() ==> (#[trigger] r@[a])@ != (#[trigger] r@[
            b
        ])@,
{
    let mut out: Vec<String> = Vec::new();
    out.push(steam_root.to_owned());
    match vdf_text {
        Some(text) => {
            let mut more = parse_libraryfolders_paths(text.as_str());
            let total = more.len();
            let mut i: usize = 0;
            while i < total
                invariant
                    out@.len() >= 1,
                    out@[0]@ == steam_root@,
                    more@.len() == total - i,
                    forall|a: int, b: int|
                        0 <= a < b < out@.len() ==> (#[trigger] out@[a])@ != (#[trigger] out@[
                            b
                        ])@,
                decreases total - i,
            {
                let p = more.remove(0);
                let mut dup = false;
                let mut j: usize = 0;
                while j < out.len()
                    invariant
                        j <= out@.len(),
                        out@.len() >= 1,
                        out@[0]@ == steam_root@,
                        forall|a: int, b: int|
                            0 <= a < b < out@.len() ==> (#[trigger] out@[a])@ != (#[trigger] out@[
                                b
                            ])@,
                        !dup ==> forall|m: int| 0 <= m < j ==> (#[trigger] out@[m])@ != p@,
                    decreases out.len() - j,
                {
                    if str_eq(out[j].as_str(), p.as_str()) {
                        dup = true;
                        j = out.len();
                    } else {
                        j = j + 1;
                    }
                }
                if !dup {
                    out.push(p);
                }
                i = i + 1;
            }
        },
        None => {},
    }
    out
}

/// Decides whether the game is installed: some existing Steam root has a
/// library root whose manifest path the caller found on disk. An empty
/// probe list is the no-Steam failure.
pub fn is_rwr_installed(probes: &Vec<SteamRootProbe>, existing_manifests: &Vec<String>) -> (r:
    Result<bool, String>)
    ensures
        probes@.len() == 0 ==> (r matches Err(m) && m@ == "steam_unavailable"@),
{
    if probes.len() == 0 {
        return Err(String::from_str("steam_unavailable"));
    }
    let mut i: usize = 0;
    while i < probes.len()
        invariant
            probes@.len() > 0,
        decreases probes.len() - i,
    {
        if probes[i].exists {
            let libs = discover_library_roots(
                probes[i].root.as_str(),
                probes[i].vdf_text.as_ref(),
            );
            let mut j: usize = 0;
            while j < libs.len()
                invariant
                    probes@.len() > 0,
                decreases libs.len() - j,
            {
                let manifest = appmanifest_path_for_root(libs[j].as_str());
                let mut k: usize = 0;
                while k < existing_manifests.len()
                    invariant
                        probes@.len() > 0,
                    decreases existing_manifests.len() - k,
                {
                    if str_eq(existing_manifests[k].as_str(), manifest.as_str()) {
                        return Ok(true);
                    }
                    k = k + 1;
                }
                j = j + 1;
            }
        }
        i = i + 1;
    }
    Ok(false)
}

/// Maps the installed-game answer to the launch precondition: available
/// only when the game was found.
pub fn steam_check_rwr_available(installed: Result<bool, String>) -> (r: Result<(), String>)
    ensures
        match installed {
            Ok(true) => r is Ok,
            Ok(false) => r matches Err(m) && m@ == "game_unavailable"@,
            Err(e) => r matches Err(m) && m@ == e@,
        },
{
    match installed {
        Ok(true) => Ok(()),
        Ok(false) => Err(String::from_str("game_unavailable")),
        Err(e) => Err(e),
    }
}

/// The Steam installation roots probed for a platform, from the user's
/// home directory or the program-files locations, in a fixed order,
/// de-duplicated.
pub fn candidate_steam_roots(
    platform: &str,
    home_dir: Option<&String>,
    program_files_x86: Option<&String>,
    program_files: Option<&String>,
) -> (r: Vec<String>)
    ensures
        forall|a: int, b: int| 0 <= a < b < r@.len() ==> (#[trigger] r@[a])@ != (#[trigger] r@[
            b
        ])@,
        platform@ == "macos"@ && home_dir is Some ==> (r@.len() == 1 && r@[0]@ == home_dir->Some_0@
            + "/Library/Application Support/Steam"@),
        platform@ == "linux"@ && home_dir is Some ==> (r@.len() == 2 && r@[0]@ == home_dir->Some_0@
            + "/.local/share/Steam"@ && r@[1]@ == home_dir->Some_0@ + "/.steam/steam"@),
{
    proof {
        reveal_strlit("macos");
        reveal_strlit("linux");
        reveal_strlit("windows");
        assert("macos"@.len() == 5 && "linux"@.len() == 5 && "windows"@.len() == 7);
        assert("macos"@[0] == 'm' && "linux"@[0] == 'l');
        assert("macos"@ != "linux"@ && "macos"@ != "windows"@ && "linux"@ != "windows"@);
    }
    let mut out: Vec<String> = Vec::new();
    if str_eq(platform, "macos") {
        match home_dir {
            Some(h) => {
                let mut p: Vec<char> = Vec::new();
                push_str_chars(&mut p, h.as_str());
                push_str_chars(&mut p, "/Library/Application Support/Steam");
                proof {
                    assert(Seq::<char>::empty() + h@ =~= h@);
                }
                out.push(chars_to_string(&p));
            },
            None => {},
        }
    } else if str_eq(platform, "linux") {
        match home_dir {
            Some(h) => {
                let mut p1: Vec<char> = Vec::new();
                push_str_chars(&mut p1, h.as_str());
                push_str_chars(&mut p1, "/.local/share/Steam");
                let mut p2: Vec<char> = Vec::new();
                push_str_chars(&mut p2, h.as_str());
                push_str_chars(&mut p2, "/.steam/steam");
                proof {
                    assert(Seq::<char>::empty() + h@ =~= h@);
                    reveal_strlit("/.local/share/Steam");
                    reveal_strlit("/.steam/steam");
                    assert("/.local/share/Steam"@.len() == 19);
                    assert("/.steam/steam"@.len() == 13);
                    assert(p1@.len() == h@.len() + 19);
                    assert(p2@.len() == h@.len() + 13);
                    assert(p1@ != p2@);
                }
                out.push(chars_to_string(&p1));
                out.push(chars_to_string(&p2));
            },
            None => {},
        }
    } else if str_eq(platform, "windows") {
        match program_files_x86 {
            Some(pf) => {
                let mut p: Vec<char> = Vec::new();
                push_str_chars(&mut p, pf.as_str());
                push_str_chars(&mut p, "/Steam");
                proof {
                    assert(Seq::<char>::empty() + pf@ =~= pf@);
                }
                out.push(chars_to_string(&p));
            },
            None => {},
        }
        match program_files {
            Some(pf) => {
                let mut p: Vec<char> = Vec::new();
                push_str_chars(&mut p, pf.as_str());
                push_str_chars(&mut p, "/Steam");
                proof {
                    assert(Seq::<char>::empty() + pf@ =~= pf@);
                }
                let s = chars_to_string(&p);
                let mut dup = false;
                let mut j: usize = 0;
                while j < out.len()
                    invariant
                        j <= out@.len(),
                        forall|a: int, b: int|
                            0 <= a < b < out@.len() ==> (#[trigger] out@[a])@ != (#[trigger] out@[
                                b
                            ])@,
                        !dup ==> forall|m: int| 0 <= m < j ==> (#[trigger] out@[m])@ != s@,
                    decreases out.len() - j,
                {
                    if str_eq(out[j].as_str(), s.as_str()) {
                        dup = true;
                        j = out.len();
                    } else {
                        j = j + 1;
                    }
                }
                if !dup {
                    out.push(s);
                }
            },
            None => {},
        }
    }
    out
}

} // verus!
