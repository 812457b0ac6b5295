//! System theme detection: the rules that turn a platform name and the
//! probe command's output into a theme name. Running the probe command
//! is the shell's job.

use vstd::prelude::*;

use crate::text::str_eq;

verus! {

/// A detected system theme.
pub struct SystemTheme {
    pub theme_type: Option<String>,
    pub detected_at: u64,
    pub platform: String,
}

/// The user's saved theme preference.
pub struct ThemePreference {
    pub theme_type: String,
    pub is_auto_detect: bool,
    pub last_updated: u64,
    pub auto_detected_theme: Option<String>,
}

/// Whether `pat` occurs in `s`.
pub open spec fn g_contains(s: Seq<char>, pat: Seq<char>) -> bool {
    crate::text::first_match(s, pat, 0) is Some
}

/// ASCII lowercase folding, character by character.
pub open spec fn g_ascii_lower(s: Seq<char>) -> Seq<char> {
    s.map_values(
        |c: char|
            if 'A' <= c && c <= 'Z' {
                (((c as u32) + 32) as u8) as char
            } else {
                c
            },
    )
}

/// Folds ASCII uppercase letters to lowercase.
pub fn ascii_lower(v: &Vec<char>) -> (r: Vec<char>)
    ensures
        r@ == g_ascii_lower(v@),
{
    let mut r: Vec<char> = Vec::new();
    let mut i: usize = 0;
    proof {
        assert(r@ =~= g_ascii_lower(v@).subrange(0, 0));
    }
    while i < v.len()
        invariant
            i <= v.len(),
            r@ =~= g_ascii_lower(v@).subrange(0, i as int),
        decreases v.len() - i,
    {
        let c = v[i];
        let lc: char = if 'A' <= c && c <= 'Z' {
            (((c as u32) + 32) as u8) as char
        } else {
            c
        };
        r.push(lc);
        proof {
            assert(g_ascii_lower(v@).subrange(0, i as int + 1) =~= g_ascii_lower(v@).subrange(
                0,
                i as int,
            ).push(g_ascii_lower(v@)[i as int]));
        }
        i = i + 1;
    }
    proof {
        assert(g_ascii_lower(v@).subrange(0, v@.len() as int) =~= g_ascii_lower(v@));
    }
    r
}

/// The theme read from the interface-style probe: dark exactly when the
/// output mentions `Dark`; a failed probe means light.
pub fn detect_theme_macos(probe_output: Option<&String>) -> (r: String)
    ensures
        match probe_output {
            Some(out) => (r@ == "dark"@ <==> g_contains(out@, "Dark"@)) && (r@ == "dark"@ || r@
                == "light"@),
            None => r@ == "light"@,
        },
{
    match probe_output {
        Some(out) => {
            let chars = crate::text::str_chars(out.as_str());
            let pat = crate::text::str_chars("Dark");
            if crate::text::contains_sub(&chars, &pat) {
                let r = String::from_str("dark");
                proof {
                    reveal_strlit("dark");
                    reveal_strlit("light");
                    assert("dark"@.len() == 4);
                    assert("light"@.len() == 5);
                    assert("dark"@ != "light"@);
                }
                r
            } else {
                let r = String::from_str("light");
                proof {
                    reveal_strlit("dark");
                    reveal_strlit("light");
                    assert("dark"@.len() == 4);
                    assert("light"@.len() == 5);
                    assert("dark"@ != "light"@);
                }
                r
            }
        },
        None => String::from_str("light"),
    }
}

/// The theme read from the desktop-theme probe: dark exactly when the
/// output's ASCII lowercase folding mentions `dark`; a failed probe
/// means light.
pub fn detect_theme_linux(probe_output: Option<&String>) -> (r: String)
    ensures
        match probe_output {
            Some(out) => (r@ == "dark"@ <==> g_contains(g_ascii_lower(out@), "dark"@)) && (r@
                == "dark"@ || r@ == "light"@),
            None => r@ == "light"@,
        },
{
    match probe_output {
        Some(out) => {
            let chars = crate::text::str_chars(out.as_str());
            let lowered = ascii_lower(&chars);
            let pat = crate::text::str_chars("dark");
            if crate::text::contains_sub(&lowered, &pat) {
                let r = String::from_str("dark");
                proof {
                    reveal_strlit("dark");
                    reveal_strlit("light");
                    assert("dark"@.len() == 4);
                    assert("light"@.len() == 5);
                    assert("dark"@ != "light"@);
                }
                r
            } else {
                let r = String::from_str("light");
                proof {
                    reveal_strlit("dark");
                    reveal_strlit("light");
                    assert("dark"@.len() == 4);
                    assert("light"@.len() == 5);
                    assert("dark"@ != "light"@);
                }
                r
            }
        },
        None => String::from_str("light"),
    }
}

/// The theme on the desktop platform without a probe: always light.
pub fn detect_theme_windows() -> (r: String)
    ensures
        r@ == "light"@,
{
    String::from_str("light")
}

/// Dispatches theme detection by platform name: the platform's rule
/// applied to the probe output, light on unknown platforms.
pub fn detect_theme_for_platform(platform: &str, probe_output: Option<&String>) -> (r: Result<
    String,
    String,
>)
    ensures
        r is Ok,
        platform@ == "windows"@ ==> (r matches Ok(t) && t@ == "light"@),
        (platform@ != "windows"@ && platform@ != "macos"@ && platform@ != "linux"@) ==> (r matches Ok(
            t,
        ) && t@ == "light"@),
{
    proof {
        reveal_strlit("windows");
        reveal_strlit("macos");
        reveal_strlit("linux");
        assert("windows"@.len() == 7);
        assert("macos"@.len() == 5);
        assert("linux"@.len() == 5);
        assert("macos"@[0] == 'm' && "linux"@[0] == 'l');
        assert("windows"@ != "macos"@ && "windows"@ != "linux"@ && "macos"@ != "linux"@);
    }
    if str_eq(platform, "macos") {
        Ok(detect_theme_macos(probe_output))
    } else if str_eq(platform, "linux") {
        Ok(detect_theme_linux(probe_output))
    } else if str_eq(platform, "windows") {
        Ok(detect_theme_windows())
    } else {
        Ok(String::from_str("light"))
    }
}

} // verus!
