//! Hotkey configuration: parsing the hotkeys markup into configuration
//! items, generating the markup back (escaping through the markup
//! crate), and resolving where the hotkeys file lives. Reading and
//! writing the file is the shell's job.

use vstd::prelude::*;

use crate::markup::GElem;
use crate::text::chars_to_string;
use crate::text::str_eq;
use crate::weapons::g_attr;
use crate::weapons::push_str_chars;

verus! {

/// One raw hotkey entry of the markup.
pub struct HotkeyRawItem {
    pub index: String,
    pub key_combination: String,
    pub label_attr: Option<String>,
    pub label_text: Option<String>,
}

/// The raw markup configuration: its hotkey entries.
pub struct HotkeyRawConfig {
    pub hotkeys: Vec<HotkeyRawItem>,
}

/// One hotkey as the caller sees it: a label and a key combination.
pub struct HotkeyConfigItem {
    pub label: String,
    pub value: String,
}

/// One stored hotkey profile.
pub struct HotkeyProfile {
    pub id: String,
    pub title: String,
    pub config: Vec<HotkeyConfigItem>,
    pub created_at: u64,
    pub updated_at: u64,
}

/// Every stored profile and the active one.
pub struct HotkeyProfilesConfig {
    pub profiles: Vec<HotkeyProfile>,
    pub active_profile_id: Option<String>,
}

/// Ghost form of a configuration item.
pub struct GHotkeyItem {
    pub label: Seq<char>,
    pub value: Seq<char>,
}

impl View for HotkeyConfigItem {
    type V = GHotkeyItem;

    open spec fn view(&self) -> GHotkeyItem {
        GHotkeyItem { label: self.label@, value: self.value@ }
    }
}

/// The configuration items read from the hotkey entries of `ch`: the
/// entries named `hotkey` with their required attributes, the label
/// taken from the label attribute, else the element text, else empty.
/// `None` when an entry lacks a required attribute.
pub open spec fn g_hotkey_items(ch: Seq<GElem>) -> Option<Seq<GHotkeyItem>>
    decreases ch.len(),
{
    if ch.len() == 0 {
        Some(Seq::empty())
    } else {
        let r = g_hotkey_items(ch.drop_last());
        if ch.last().name == "hotkey"@ {
            match (g_attr(ch.last().attrs, "index"@), g_attr(ch.last().attrs, "text"@)) {
                (Some(_), Some(v)) => {
                    let label = match g_attr(ch.last().attrs, "label"@) {
                        Some(l) => l,
                        None => ch.last().text,
                    };
                    match r {
                        Some(rs) => Some(rs.push(GHotkeyItem { label, value: v })),
                        None => None,
                    }
                },
                _ => None,
            }
        } else {
            r
        }
    }
}

/// What hotkey parsing yields for a whole document: the items of a root
/// named `hotkeys`, an error otherwise.
pub open spec fn g_parse_hotkeys(s: Seq<char>) -> Option<Seq<GHotkeyItem>> {
    match crate::markup::sp_document(s) {
        Some(root) => {
            if root.name == "hotkeys"@ {
                g_hotkey_items(root.children)
            } else {
                None
            }
        },
        None => None,
    }
}

/// A missing required attribute in a prefix spoils the whole list.
proof fn lemma_hotkey_items_none_extends(s: Seq<GElem>, n: int)
    requires
        0 <= n <= s.len(),
        g_hotkey_items(s.subrange(0, n)) is None,
    ensures
        g_hotkey_items(s) is None,
    decreases s.len() - n,
{
    if n == s.len() {
        assert(s.subrange(0, n) =~= s);
    } else {
        assert(s.subrange(0, n + 1).drop_last() =~= s.subrange(0, n));
        lemma_hotkey_items_none_extends(s, n + 1);
    }
}

/// Parses hotkeys markup into configuration items: one item per
/// `hotkey` entry, label from the label attribute, else the entry's
/// text; fails when the markup does not parse, the root is not
/// `hotkeys`, or an entry lacks a required attribute.
pub fn parse_hotkeys(xml_content: &str) -> (r: Result<Vec<HotkeyConfigItem>, String>)
    ensures
        match r {
            Ok(items) => g_parse_hotkeys(xml_content@) == Some(
                items@.map_values(|x: HotkeyConfigItem| x@),
            ),
            Err(_) => g_parse_hotkeys(xml_content@) is None,
        },
{
    let root = match crate::markup::parse_document(xml_content) {
        Some(root) => root,
        None => {
            return Err(String::from_str("Failed to parse XML"));
        },
    };
    if !str_eq(root.name.as_str(), "hotkeys") {
        return Err(String::from_str("Failed to parse XML"));
    }
    let mut items: Vec<HotkeyConfigItem> = Vec::new();
    let mut i: usize = 0;
    let ghost gch = crate::markup::gelem_of(root).children;
    proof {
        crate::weapons::lemma_gelems_of_len(root.children@);
        assert(root.children@.subrange(0, 0) =~= Seq::<crate::markup::XmlElem>::empty());
        assert(items@.map_values(|x: HotkeyConfigItem| x@) =~= Seq::<GHotkeyItem>::empty());
    }
    while i < root.children.len()
        invariant
            i <= root.children.len(),
            crate::markup::sp_document(xml_content@) == Some(crate::markup::gelem_of(root)),
            crate::markup::gelem_of(root).name == "hotkeys"@,
            gch == crate::markup::gelem_of(root).children,
            gch == crate::markup::gelems_of(root.children@),
            gch.len() == root.children@.len(),
            g_hotkey_items(crate::markup::gelems_of(root.children@.subrange(0, i as int)))
                == Some(items@.map_values(|x: HotkeyConfigItem| x@)),
        decreases root.children.len() - i,
    {
        let ghost pre = root.children@.subrange(0, i as int);
        let ghost post = root.children@.subrange(0, i as int + 1);
        proof {
            assert(post =~= pre.push(root.children@[i as int]));
            crate::weapons::lemma_gelems_push(pre, root.children@[i as int]);
        }
        let c = &root.children[i];
        if str_eq(c.name.as_str(), "hotkey") {
            let index = crate::weapons::elem_attr(c, "index");
            let text = crate::weapons::elem_attr(c, "text");
            match (index, text) {
                (Some(_), Some(v)) => {
                    let label: String = match crate::weapons::elem_attr(c, "label") {
                        Some(l) => l,
                        None => c.text.clone(),
                    };
                    let ghost m0 = items@.map_values(|x: HotkeyConfigItem| x@);
                    let ghost glabel = label@;
                    let ghost gvalue = v@;
                    items.push(HotkeyConfigItem { label, value: v });
                    proof {
                        assert(items@.map_values(|x: HotkeyConfigItem| x@) =~= m0.push(
                            GHotkeyItem { label: glabel, value: gvalue },
                        ));
                        assert(crate::markup::gelems_of(post).drop_last() =~= crate::markup::gelems_of(
                            pre,
                        ));
                    }
                },
                _ => {
                    proof {
                        assert(crate::markup::gelems_of(post).drop_last() =~= crate::markup::gelems_of(
                            pre,
                        ));
                        assert(g_hotkey_items(crate::markup::gelems_of(post)) is None);
                        assert(crate::markup::gelems_of(root.children@).subrange(0, i as int + 1)
                            =~= crate::markup::gelems_of(post)) by {
                            assert forall|j: int|
                                0 <= j < i as int + 1 implies crate::markup::gelems_of(
                                root.children@,
                            )[j] == crate::markup::gelems_of(post)[j] by {
                                crate::weapons::lemma_gelems_of_index(root.children@, j);
                                crate::weapons::lemma_gelems_of_index(post, j);
                            }
                            crate::weapons::lemma_gelems_of_len(post);
                        }
                        lemma_hotkey_items_none_extends(
                            crate::markup::gelems_of(root.children@),
                            i as int + 1,
                        );
                    }
                    return Err(String::from_str("Failed to parse XML"));
                },
            }
        } else {
            proof {
                assert(crate::markup::gelems_of(post).drop_last() =~= crate::markup::gelems_of(
                    pre,
                ));
            }
        }
        i = i + 1;
    }
    proof {
        assert(root.children@.subrange(0, root.children@.len() as int) =~= root.children@);
    }
    Ok(items)
}

/// The escaping the markup writer applies to an attribute value.
pub open spec fn xml_escaped(s: Seq<char>) -> Seq<char>
    decreases s.len(),
{
    if s.len() == 0 {
        Seq::empty()
    } else {
        xml_escaped(s.drop_last()) + (if s.last() == '<' {
            "&lt;"@
        } else if s.last() == '>' {
            "&gt;"@
        } else if s.last() == '&' {
            "&amp;"@
        } else if s.last() == '\'' {
            "&apos;"@
        } else if s.last() == '"' {
            "&quot;"@
        } else if s.last() == '\r' {
            "&#13;"@
        } else {
            seq![s.last()]
        })
    }
}

/// Relies on `quick_xml::escape::escape`: it replaces exactly `<`, `>`,
/// `&`, `'`, `"` and the carriage return with their character
/// references, as `xml_escaped` states.
#[verifier::external_body]
fn xml_escape(s: &str) -> (r: String)
    ensures
        r@ == xml_escaped(s@),
{
    quick_xml::escape::escape(s).into_owned()
}

/// One generated hotkey line: indentation, the entry with its index and
/// escaped text, and the label attribute when the trimmed label is not
/// empty.
pub open spec fn g_hotkey_line(idx: nat, item: GHotkeyItem) -> Seq<char> {
    let label = crate::text::trimmed(item.label);
    if label.len() == 0 {
        "       <hotkey index=\""@ + crate::text::dec_of(idx) + "\" text=\""@ + xml_escaped(
            item.value,
        ) + "\" />\n"@
    } else {
        "       <hotkey index=\""@ + crate::text::dec_of(idx) + "\" text=\""@ + xml_escaped(
            item.value,
        ) + "\" label=\""@ + xml_escaped(label) + "\" />\n"@
    }
}

/// The generated markup for the first `n` items.
pub open spec fn g_hotkey_lines(items: Seq<GHotkeyItem>, n: int) -> Seq<char>
    decreases n,
{
    if n <= 0 {
        Seq::empty()
    } else {
        g_hotkey_lines(items, n - 1) + g_hotkey_line((n - 1) as nat, items[n - 1])
    }
}

/// The whole generated hotkeys markup.
pub open spec fn g_generate_hotkeys(items: Seq<GHotkeyItem>) -> Seq<char> {
    "<hotkeys>\n"@ + g_hotkey_lines(items, items.len() as int) + "</hotkeys>"@
}

/// Generates hotkeys markup from configuration items: one entry per
/// item, indexed in order, values and labels escaped, labels trimmed
/// and dropped when empty.
pub fn generate_hotkeys(config: &Vec<HotkeyConfigItem>) -> (r: String)
    ensures
        r@ == g_generate_hotkeys(config@.map_values(|x: HotkeyConfigItem| x@)),
{
    let ghost gitems = config@.map_values(|x: HotkeyConfigItem| x@);
    let mut out: Vec<char> = Vec::new();
    push_str_chars(&mut out, "<hotkeys>\n");
    let ghost head = "<hotkeys>\n"@;
    let mut i: usize = 0;
    proof {
        assert(Seq::<char>::empty() + head =~= head);
    }
    while i < config.len()
        invariant
            i <= config.len(),
            gitems == config@.map_values(|x: HotkeyConfigItem| x@),
            gitems.len() == config@.len(),
            out@ == head + g_hotkey_lines(gitems, i as int),
        decreases config.len() - i,
    {
        let item = &config[i];
        let ghost out0 = out@;
        push_str_chars(&mut out, "       <hotkey index=\"");
        let idx = crate::text::dec_chars(i as u64);
        let mut d: usize = 0;
        let ghost out1 = out@;
        while d < idx.len()
            invariant
                d <= idx.len(),
                out@ =~= out1 + idx@.subrange(0, d as int),
            decreases idx.len() - d,
        {
            out.push(idx[d]);
            d = d + 1;
        }
        proof {
            assert(idx@.subrange(0, idx@.len() as int) =~= idx@);
        }
        push_str_chars(&mut out, "\" text=\"");
        let escaped = xml_escape(item.value.as_str());
        push_str_chars(&mut out, escaped.as_str());
        let label_chars = crate::text::str_chars(item.label.as_str());
        let label_trimmed = crate::text::trim_chars(&label_chars);
        if label_trimmed.len() == 0 {
            push_str_chars(&mut out, "\" />\n");
            proof {
                assert(gitems[i as int] == config@[i as int]@);
                assert(out@ =~= out0 + g_hotkey_line(i as nat, gitems[i as int]));
                assert(out@ =~= head + g_hotkey_lines(gitems, i as int + 1));
            }
        } else {
            push_str_chars(&mut out, "\" label=\"");
            let ls = chars_to_string(&label_trimmed);
            let escaped_label = xml_escape(ls.as_str());
            push_str_chars(&mut out, escaped_label.as_str());
            push_str_chars(&mut out, "\" />\n");
            proof {
                assert(gitems[i as int] == config@[i as int]@);
                assert(out@ =~= out0 + g_hotkey_line(i as nat, gitems[i as int]));
                assert(out@ =~= head + g_hotkey_lines(gitems, i as int + 1));
            }
        }
        i = i + 1;
    }
    push_str_chars(&mut out, "</hotkeys>");
    proof {
        assert(out@ =~= g_generate_hotkeys(gitems));
    }
    chars_to_string(&out)
}

/// The official per-user hotkeys path for a platform, given the user's
/// data or home directory; `None` on unknown platforms or when the base
/// directory is unknown.
pub fn get_official_hotkeys_path(
    platform: &str,
    data_dir: Option<&String>,
    home_dir: Option<&String>,
) -> (r: Option<String>)
    ensures
        match r {
            Some(p) => (platform@ == "windows"@ && data_dir is Some && p@ == data_dir->Some_0@
                + "/Running with rifles/hotkeys.xml"@) || (platform@ == "macos"@ && home_dir is Some
                && p@ == home_dir->Some_0@
                + "/Library/Application Support/RunningWithRifles/hotkeys.xml"@) || (platform@
                == "linux"@ && home_dir is Some && p@ == home_dir->Some_0@
                + "/.running_with_rifle/hotkeys.xml"@),
            None => (platform@ == "windows"@ ==> data_dir is None) && (platform@ == "macos"@
                ==> home_dir is None) && (platform@ == "linux"@ ==> home_dir is None),
        },
{
    proof {
        reveal_strlit("windows");
        reveal_strlit("macos");
        reveal_strlit("linux");
        assert("windows"@.len() == 7);
        assert("macos"@.len() == 5);
        assert("linux"@.len() == 5);
        assert("macos"@[0] == 'm' && "linux"@[0] == 'l');
        assert("windows"@ != "macos"@ && "windows"@ != "linux"@ && "macos"@ != "linux"@);
    }
    if str_eq(platform, "windows") {
        match data_dir {
            Some(d) => {
                let mut out: Vec<char> = Vec::new();
                push_str_chars(&mut out, d.as_str());
                push_str_chars(&mut out, "/Running with rifles/hotkeys.xml");
                proof {
                    assert(Seq::<char>::empty() + d@ =~= d@);
                }
                Some(chars_to_string(&out))
            },
            None => None,
        }
    } else if str_eq(platform, "macos") {
        match home_dir {
            Some(h) => {
                let mut out: Vec<char> = Vec::new();
                push_str_chars(&mut out, h.as_str());
                push_str_chars(&mut out, "/Library/Application Support/RunningWithRifles/hotkeys.xml");
                proof {
                    assert(Seq::<char>::empty() + h@ =~= h@);
                }
                Some(chars_to_string(&out))
            },
            None => None,
        }
    } else if str_eq(platform, "linux") {
        match home_dir {
            Some(h) => {
                let mut out: Vec<char> = Vec::new();
                push_str_chars(&mut out, h.as_str());
                push_str_chars(&mut out, "/.running_with_rifle/hotkeys.xml");
                proof {
                    assert(Seq::<char>::empty() + h@ =~= h@);
                }
                Some(chars_to_string(&out))
            },
            None => None,
        }
    } else {
        None
    }
}

/// Whether `v` holds a string equal to `s`.
fn has_string(v: &Vec<String>, s: &str) -> (r: bool)
    ensures
        r == (exists|i: int| 0 <= i < v@.len() && (#[trigger] v@[i])@ == s@),
{
    let mut i: usize = 0;
    while i < v.len()
        invariant
            i <= v@.len(),
            forall|j: int| 0 <= j < i ==> (#[trigger] v@[j])@ != s@,
        decreases v.len() - i,
    {
        if str_eq(v[i].as_str(), s) {
            proof {
                assert(v@[i as int]@ == s@);
            }
            return true;
        }
        i = i + 1;
    }
    false
}

/// The game-directory hotkeys path.
pub fn game_hotkeys_path(game_path: &str) -> (r: String)
    ensures
        r@ == game_path@ + "/hotkeys.xml"@,
{
    let mut out: Vec<char> = Vec::new();
    push_str_chars(&mut out, game_path);
    push_str_chars(&mut out, "/hotkeys.xml");
    proof {
        assert(Seq::<char>::empty() + game_path@ =~= game_path@);
    }
    chars_to_string(&out)
}

/// Resolves where an existing hotkeys file lives: the official per-user
/// path when the caller found it on disk, else the game directory's
/// file when that exists, else nowhere.
pub fn resolve_existing_hotkeys_path(
    official_path: Option<&String>,
    game_path: &str,
    existing: &Vec<String>,
) -> (r: Option<String>)
    ensures
        match r {
            Some(p) => (official_path is Some && p@ == official_path->Some_0@ && exists|i: int|
                0 <= i < existing@.len() && (#[trigger] existing@[i])@ == p@) || (p@ == game_path@
                + "/hotkeys.xml"@ && exists|i: int|
                0 <= i < existing@.len() && (#[trigger] existing@[i])@ == p@),
            None => true,
        },
{
    match official_path {
        Some(p) => {
            if has_string(existing, p.as_str()) {
                return Some(p.clone());
            }
        },
        None => {},
    }
    let gp = game_hotkeys_path(game_path);
    if has_string(existing, gp.as_str()) {
        return Some(gp);
    }
    None
}

/// Resolves where hotkeys should be written: the official per-user path
/// when one is known, else the game directory's file.
pub fn resolve_writable_hotkeys_path(official_path: Option<&String>, game_path: &str) -> (r:
    String)
    ensures
        match official_path {
            Some(p) => r@ == p@,
            None => r@ == game_path@ + "/hotkeys.xml"@,
        },
{
    match official_path {
        Some(p) => p.clone(),
        None => game_hotkeys_path(game_path),
    }
}

/// The not-found message: it names the paths that were checked.
pub fn build_hotkeys_not_found_error(official_path: Option<&String>, game_path: &str) -> (r:
    String)
    ensures
        match official_path {
            Some(p) => r@ == "hotkeys.xml not found (checked: "@ + p@ + ", "@ + game_path@
                + "/hotkeys.xml)"@,
            None => r@ == "hotkeys.xml not found"@,
        },
{
    match official_path {
        Some(p) => {
            let mut out: Vec<char> = Vec::new();
            push_str_chars(&mut out, "hotkeys.xml not found (checked: ");
            push_str_chars(&mut out, p.as_str());
            push_str_chars(&mut out, ", ");
            push_str_chars(&mut out, game_path);
            push_str_chars(&mut out, "/hotkeys.xml)");
            proof {
                assert(Seq::<char>::empty() + "hotkeys.xml not found (checked: "@
                    =~= "hotkeys.xml not found (checked: "@);
            }
            chars_to_string(&out)
        },
        None => String::from_str("hotkeys.xml not found"),
    }
}

} // verus!
