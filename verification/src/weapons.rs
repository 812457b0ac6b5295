//! Weapon definition scanning: raw attribute bags, template-inheritance
//! resolution with cycle and depth protection, normalization to the public
//! weapon record, and scan aggregation with duplicate-key reporting.
//!
//! Numeric attributes are carried as their attribute text throughout; the
//! shell converts them to machine numbers only at its own edge.

use vstd::prelude::*;

use base64::Engine;
use crate::fspath::FsPath;
use crate::markup::GAttr;
use crate::markup::GElem;
use crate::markup::XmlElem;
use crate::markup::gelem_of;
use crate::markup::gelems_of;

verus! {

/// Longest template chain the resolver follows.
pub const MAX_TEMPLATE_DEPTH: usize = 10;

/// The view of an optional string.
pub open spec fn opt_str(o: Option<String>) -> Option<Seq<char>> {
    match o {
        Some(s) => Some(s@),
        None => None,
    }
}

/// A `tag` entry of a weapon definition.
pub struct RawTag {
    pub name: Option<String>,
}

/// Ghost form of a tag entry.
pub struct GTag {
    pub name: Option<Seq<char>>,
}

impl View for RawTag {
    type V = GTag;

    open spec fn view(&self) -> GTag {
        GTag { name: opt_str(self.name) }
    }
}

/// The `hud_icon` element of a definition.
pub struct RawHudIcon {
    pub filename: Option<String>,
}

/// Ghost form of the icon reference.
pub struct GHudIcon {
    pub filename: Option<Seq<char>>,
}

impl View for RawHudIcon {
    type V = GHudIcon;

    open spec fn view(&self) -> GHudIcon {
        GHudIcon { filename: opt_str(self.filename) }
    }
}

/// The `specification` element's scalar attributes, each kept as
/// present-with-text or absent.
pub struct RawSpecification {
    pub retrigger_time: Option<String>,
    pub accuracy_factor: Option<String>,
    pub sustained_fire_grow_step: Option<String>,
    pub sustained_fire_diminish_rate: Option<String>,
    pub magazine_size: Option<String>,
    pub can_shoot_standing: Option<String>,
    pub suppressed: Option<String>,
    pub name: Option<String>,
    pub class: Option<String>,
    pub projectile_speed: Option<String>,
}

/// Ghost form of the specification attributes.
pub struct GSpecification {
    pub retrigger_time: Option<Seq<char>>,
    pub accuracy_factor: Option<Seq<char>>,
    pub sustained_fire_grow_step: Option<Seq<char>>,
    pub sustained_fire_diminish_rate: Option<Seq<char>>,
    pub magazine_size: Option<Seq<char>>,
    pub can_shoot_standing: Option<Seq<char>>,
    pub suppressed: Option<Seq<char>>,
    pub name: Option<Seq<char>>,
    pub class: Option<Seq<char>>,
    pub projectile_speed: Option<Seq<char>>,
}

impl View for RawSpecification {
    type V = GSpecification;

    open spec fn view(&self) -> GSpecification {
        GSpecification {
            retrigger_time: opt_str(self.retrigger_time),
            accuracy_factor: opt_str(self.accuracy_factor),
            sustained_fire_grow_step: opt_str(self.sustained_fire_grow_step),
            sustained_fire_diminish_rate: opt_str(self.sustained_fire_diminish_rate),
            magazine_size: opt_str(self.magazine_size),
            can_shoot_standing: opt_str(self.can_shoot_standing),
            suppressed: opt_str(self.suppressed),
            name: opt_str(self.name),
            class: opt_str(self.class),
            projectile_speed: opt_str(self.projectile_speed),
        }
    }
}

/// The `inventory` element of a definition.
pub struct RawInventory {
    pub encumbrance: Option<String>,
    pub price: Option<String>,
}

/// Ghost form of the inventory block.
pub struct GInventory {
    pub encumbrance: Option<Seq<char>>,
    pub price: Option<Seq<char>>,
}

impl View for RawInventory {
    type V = GInventory;

    open spec fn view(&self) -> GInventory {
        GInventory { encumbrance: opt_str(self.encumbrance), price: opt_str(self.price) }
    }
}

/// The `result` element nested in a projectile.
pub struct RawProjectileResult {
    pub class: Option<String>,
    pub kill_probability: Option<String>,
    pub kill_decay_start_time: Option<String>,
    pub kill_decay_end_time: Option<String>,
}

/// Ghost form of the projectile result.
pub struct GProjectileResult {
    pub class: Option<Seq<char>>,
    pub kill_probability: Option<Seq<char>>,
    pub kill_decay_start_time: Option<Seq<char>>,
    pub kill_decay_end_time: Option<Seq<char>>,
}

impl View for RawProjectileResult {
    type V = GProjectileResult;

    open spec fn view(&self) -> GProjectileResult {
        GProjectileResult {
            class: opt_str(self.class),
            kill_probability: opt_str(self.kill_probability),
            kill_decay_start_time: opt_str(self.kill_decay_start_time),
            kill_decay_end_time: opt_str(self.kill_decay_end_time),
        }
    }
}

/// The `projectile` element of a definition.
pub struct RawProjectile {
    pub file: Option<String>,
    pub result: Option<RawProjectileResult>,
}

/// Ghost form of the projectile block.
pub struct GProjectile {
    pub file: Option<Seq<char>>,
    pub result: Option<GProjectileResult>,
}

impl View for RawProjectile {
    type V = GProjectile;

    open spec fn view(&self) -> GProjectile {
        GProjectile {
            file: opt_str(self.file),
            result: match self.result {
                Some(r) => Some(r@),
                None => None,
            },
        }
    }
}

/// A `modifier` entry of a weapon definition.
pub struct RawModifier {
    pub class: Option<String>,
    pub value: Option<String>,
}

/// Ghost form of a modifier entry.
pub struct GModifier {
    pub class: Option<Seq<char>>,
    pub value: Option<Seq<char>>,
}

impl View for RawModifier {
    type V = GModifier;

    open spec fn view(&self) -> GModifier {
        GModifier { class: opt_str(self.class), value: opt_str(self.value) }
    }
}

/// A per-stance accuracy entry; both attributes are required.
pub struct RawStance {
    pub state_key: String,
    pub accuracy: String,
}

/// Ghost form of a stance entry.
pub struct GStance {
    pub state_key: Seq<char>,
    pub accuracy: Seq<char>,
}

impl View for RawStance {
    type V = GStance;

    open spec fn view(&self) -> GStance {
        GStance { state_key: self.state_key@, accuracy: self.accuracy@ }
    }
}

/// One weapon definition entry as read from a file, before template
/// resolution: every field distinguishes present from absent.
pub struct RawWeapon {
    pub key: Option<String>,
    pub template_file: Option<String>,
    pub tags: Vec<RawTag>,
    pub specification: RawSpecification,
    pub hud_icon: Option<RawHudIcon>,
    pub inventory: Option<RawInventory>,
    pub projectile: Option<RawProjectile>,
    pub modifiers: Vec<RawModifier>,
    pub chain_variants: Vec<String>,
    pub stances: Vec<RawStance>,
}

/// Ghost form of a raw weapon bag.
pub struct GWeapon {
    pub key: Option<Seq<char>>,
    pub template_file: Option<Seq<char>>,
    pub tags: Seq<GTag>,
    pub specification: GSpecification,
    pub hud_icon: Option<GHudIcon>,
    pub inventory: Option<GInventory>,
    pub projectile: Option<GProjectile>,
    pub modifiers: Seq<GModifier>,
    pub chain_variants: Seq<Seq<char>>,
    pub stances: Seq<GStance>,
}

impl View for RawWeapon {
    type V = GWeapon;

    open spec fn view(&self) -> GWeapon {
        GWeapon {
            key: opt_str(self.key),
            template_file: opt_str(self.template_file),
            tags: self.tags@.map_values(|t: RawTag| t@),
            specification: self.specification@,
            hud_icon: match self.hud_icon {
                Some(h) => Some(h@),
                None => None,
            },
            inventory: match self.inventory {
                Some(i) => Some(i@),
                None => None,
            },
            projectile: match self.projectile {
                Some(p) => Some(p@),
                None => None,
            },
            modifiers: self.modifiers@.map_values(|m: RawModifier| m@),
            chain_variants: self.chain_variants@.map_values(|s: String| s@),
            stances: self.stances@.map_values(|s: RawStance| s@),
        }
    }
}

/// The value of the first attribute named `name`.
pub open spec fn g_attr(attrs: Seq<GAttr>, name: Seq<char>) -> Option<Seq<char>>
    decreases attrs.len(),
{
    if attrs.len() == 0 {
        None
    } else if attrs[0].name == name {
        Some(attrs[0].value)
    } else {
        g_attr(attrs.subrange(1, attrs.len() as int), name)
    }
}

/// The first child element named `name`.
pub open spec fn g_first_named(ch: Seq<GElem>, name: Seq<char>) -> Option<GElem>
    decreases ch.len(),
{
    if ch.len() == 0 {
        None
    } else if ch[0].name == name {
        Some(ch[0])
    } else {
        g_first_named(ch.subrange(1, ch.len() as int), name)
    }
}

/// The value of the attribute `name` on the element `e`, if present.
pub fn elem_attr(e: &XmlElem, name: &str) -> (r: Option<String>)
    ensures
        opt_str(r) == g_attr(gelem_of(*e).attrs, name@),
{
    let mut i: usize = 0;
    let ghost all = gelem_of(*e).attrs;
    proof {
        assert(all =~= e.attrs@.map_values(|a: crate::markup::XmlAttr| a@));
        assert(all.subrange(0, all.len() as int) =~= all);
    }
    while i < e.attrs.len()
        invariant
            i <= e.attrs.len(),
            all == gelem_of(*e).attrs,
            all.len() == e.attrs.len(),
            forall|j: int| 0 <= j < all.len() ==> all[j] == e.attrs@[j]@,
            g_attr(all, name@) == g_attr(all.subrange(i as int, all.len() as int), name@),
        decreases e.attrs.len() - i,
    {
        let ghost rest = all.subrange(i as int, all.len() as int);
        proof {
            assert(rest[0] == all[i as int]);
            assert(rest.subrange(1, rest.len() as int) =~= all.subrange(
                i as int + 1,
                all.len() as int,
            ));
        }
        if crate::text::str_eq(e.attrs[i].name.as_str(), name) {
            return Some(e.attrs[i].value.clone());
        }
        i = i + 1;
    }
    proof {
        assert(all.subrange(i as int, all.len() as int).len() == 0);
    }
    None
}

/// The first child of `e` named `name`, if any.
pub fn first_child_named<'a>(e: &'a XmlElem, name: &str) -> (r: Option<&'a XmlElem>)
    ensures
        match r {
            Some(c) => g_first_named(gelem_of(*e).children, name@) == Some(gelem_of(*c)),
            None => g_first_named(gelem_of(*e).children, name@) is None,
        },
{
    let ghost all = gelem_of(*e).children;
    proof {
        lemma_gelems_of_len(e.children@);
        assert(all.subrange(0, all.len() as int) =~= all);
    }
    let mut i: usize = 0;
    while i < e.children.len()
        invariant
            i <= e.children.len(),
            all == gelem_of(*e).children,
            all == gelems_of(e.children@),
            all.len() == e.children.len(),
            g_first_named(all, name@) == g_first_named(
                all.subrange(i as int, all.len() as int),
                name@,
            ),
        decreases e.children.len() - i,
    {
        let ghost rest = all.subrange(i as int, all.len() as int);
        proof {
            lemma_gelems_of_index(e.children@, i as int);
            assert(rest[0] == all[i as int]);
            assert(rest.subrange(1, rest.len() as int) =~= all.subrange(
                i as int + 1,
                all.len() as int,
            ));
        }
        if crate::text::str_eq(e.children[i].name.as_str(), name) {
            return Some(&e.children[i]);
        }
        i = i + 1;
    }
    proof {
        assert(all.subrange(i as int, all.len() as int).len() == 0);
    }
    None
}

/// The tag entries among `ch`, in order.
pub open spec fn g_tags(ch: Seq<GElem>) -> Seq<GTag>
    decreases ch.len(),
{
    if ch.len() == 0 {
        Seq::empty()
    } else {
        let r = g_tags(ch.drop_last());
        if ch.last().name == "tag"@ {
            r.push(GTag { name: g_attr(ch.last().attrs, "name"@) })
        } else {
            r
        }
    }
}

/// The modifier entries among `ch`, in order.
pub open spec fn g_mods(ch: Seq<GElem>) -> Seq<GModifier>
    decreases ch.len(),
{
    if ch.len() == 0 {
        Seq::empty()
    } else {
        let r = g_mods(ch.drop_last());
        if ch.last().name == "modifier"@ {
            r.push(
                GModifier {
                    class: g_attr(ch.last().attrs, "class"@),
                    value: g_attr(ch.last().attrs, "value"@),
                },
            )
        } else {
            r
        }
    }
}

/// The texts of the chain-variant entries among `ch`, in order.
pub open spec fn g_chains(ch: Seq<GElem>) -> Seq<Seq<char>>
    decreases ch.len(),
{
    if ch.len() == 0 {
        Seq::empty()
    } else {
        let r = g_chains(ch.drop_last());
        if ch.last().name == "nextInChain"@ {
            r.push(ch.last().text)
        } else {
            r
        }
    }
}

/// The stance entries among `ch`; `None` when one lacks a required
/// attribute.
pub open spec fn g_stances(ch: Seq<GElem>) -> Option<Seq<GStance>>
    decreases ch.len(),
{
    if ch.len() == 0 {
        Some(Seq::empty())
    } else {
        let r = g_stances(ch.drop_last());
        if ch.last().name == "stance"@ {
            match (g_attr(ch.last().attrs, "state_key"@), g_attr(ch.last().attrs, "accuracy"@)) {
                (Some(k), Some(a)) => match r {
                    Some(rs) => Some(rs.push(GStance { state_key: k, accuracy: a })),
                    None => None,
                },
                _ => None,
            }
        } else {
            r
        }
    }
}

/// The specification attributes read from the first `specification`
/// child, or all absent when there is none.
pub open spec fn g_spec_of(ch: Seq<GElem>) -> GSpecification {
    match g_first_named(ch, "specification"@) {
        Some(el) => GSpecification {
            retrigger_time: g_attr(el.attrs, "retrigger_time"@),
            accuracy_factor: g_attr(el.attrs, "accuracy_factor"@),
            sustained_fire_grow_step: g_attr(el.attrs, "sustained_fire_grow_step"@),
            sustained_fire_diminish_rate: g_attr(el.attrs, "sustained_fire_diminish_rate"@),
            magazine_size: g_attr(el.attrs, "magazine_size"@),
            can_shoot_standing: g_attr(el.attrs, "can_shoot_standing"@),
            suppressed: g_attr(el.attrs, "suppressed"@),
            name: g_attr(el.attrs, "name"@),
            class: g_attr(el.attrs, "class"@),
            projectile_speed: g_attr(el.attrs, "projectile_speed"@),
        },
        None => GSpecification {
            retrigger_time: None,
            accuracy_factor: None,
            sustained_fire_grow_step: None,
            sustained_fire_diminish_rate: None,
            magazine_size: None,
            can_shoot_standing: None,
            suppressed: None,
            name: None,
            class: None,
            projectile_speed: None,
        },
    }
}

/// The icon reference read from the first `hud_icon` child, if any.
pub open spec fn g_hud_of(ch: Seq<GElem>) -> Option<GHudIcon> {
    match g_first_named(ch, "hud_icon"@) {
        Some(el) => Some(GHudIcon { filename: g_attr(el.attrs, "filename"@) }),
        None => None,
    }
}

/// The inventory block read from the first `inventory` child, if any.
pub open spec fn g_inv_of(ch: Seq<GElem>) -> Option<GInventory> {
    match g_first_named(ch, "inventory"@) {
        Some(el) => Some(
            GInventory {
                encumbrance: g_attr(el.attrs, "encumbrance"@),
                price: g_attr(el.attrs, "price"@),
            },
        ),
        None => None,
    }
}

/// The projectile block read from the first `projectile` child, if any.
pub open spec fn g_proj_of(ch: Seq<GElem>) -> Option<GProjectile> {
    match g_first_named(ch, "projectile"@) {
        Some(el) => Some(
            GProjectile {
                file: g_attr(el.attrs, "file"@),
                result: match g_first_named(el.children, "result"@) {
                    Some(rr) => Some(
                        GProjectileResult {
                            class: g_attr(rr.attrs, "class"@),
                            kill_probability: g_attr(rr.attrs, "kill_probability"@),
                            kill_decay_start_time: g_attr(rr.attrs, "kill_decay_start_time"@),
                            kill_decay_end_time: g_attr(rr.attrs, "kill_decay_end_time"@),
                        },
                    ),
                    None => None,
                },
            },
        ),
        None => None,
    }
}

/// The weapon bag described by the root element `e`; `None` when a stance
/// entry lacks a required attribute.
pub open spec fn g_weapon_of(e: GElem) -> Option<GWeapon> {
    match g_stances(e.children) {
        Some(st) => Some(
            GWeapon {
                key: g_attr(e.attrs, "key"@),
                template_file: g_attr(e.attrs, "file"@),
                tags: g_tags(e.children),
                specification: g_spec_of(e.children),
                hud_icon: g_hud_of(e.children),
                inventory: g_inv_of(e.children),
                projectile: g_proj_of(e.children),
                modifiers: g_mods(e.children),
                chain_variants: g_chains(e.children),
                stances: st,
            },
        ),
        None => None,
    }
}

/// Length of the ghost form of an element list.
pub proof fn lemma_gelems_of_len(s: Seq<XmlElem>)
    ensures
        gelems_of(s).len() == s.len(),
    decreases s.len(),
{
    if s.len() > 0 {
        lemma_gelems_of_len(s.drop_last());
    }
}

/// Indexing the ghost form of an element list.
pub proof fn lemma_gelems_of_index(s: Seq<XmlElem>, i: int)
    requires
        0 <= i < s.len(),
    ensures
        gelems_of(s).len() == s.len(),
        gelems_of(s)[i] == gelem_of(s[i]),
    decreases s.len(),
{
    lemma_gelems_of_len(s);
    if i < s.len() - 1 {
        lemma_gelems_of_index(s.drop_last(), i);
    }
}

/// Appending one element to a list extends its ghost form by its ghost
/// form.
pub proof fn lemma_gelems_push(s: Seq<XmlElem>, x: XmlElem)
    ensures
        gelems_of(s.push(x)) == gelems_of(s).push(gelem_of(x)),
{
    assert(s.push(x).drop_last() =~= s);
    assert(s.push(x).last() == x);
}

/// A missing stance attribute in a prefix spoils the whole list.
pub proof fn lemma_g_stances_none_extends(s: Seq<GElem>, n: int)
    requires
        0 <= n <= s.len(),
        g_stances(s.subrange(0, n)) is None,
    ensures
        g_stances(s) is None,
    decreases s.len() - n,
{
    if n == s.len() {
        assert(s.subrange(0, n) =~= s);
    } else {
        assert(s.subrange(0, n + 1).drop_last() =~= s.subrange(0, n));
        lemma_g_stances_none_extends(s, n + 1);
    }
}

/// The tag entries of `e`'s children.
pub fn tags_of(e: &XmlElem) -> (r: Vec<RawTag>)
    ensures
        r@.map_values(|t: RawTag| t@) == g_tags(gelem_of(*e).children),
{
    let mut r: Vec<RawTag> = Vec::new();
    let mut i: usize = 0;
    proof {
        assert(e.children@.subrange(0, 0) =~= Seq::<XmlElem>::empty());
        assert(r@.map_values(|t: RawTag| t@) =~= Seq::<GTag>::empty());
    }
    while i < e.children.len()
        invariant
            i <= e.children.len(),
            r@.map_values(|t: RawTag| t@) == g_tags(gelems_of(e.children@.subrange(0, i as int))),
        decreases e.children.len() - i,
    {
        let ghost pre = e.children@.subrange(0, i as int);
        let ghost post = e.children@.subrange(0, i as int + 1);
        proof {
            assert(post =~= pre.push(e.children@[i as int]));
            lemma_gelems_push(pre, e.children@[i as int]);
            lemma_gelems_of_len(pre);
        }
        let c = &e.children[i];
        if crate::text::str_eq(c.name.as_str(), "tag") {
            let ghost m0 = r@.map_values(|t: RawTag| t@);
            let t = RawTag { name: elem_attr(c, "name") };
            r.push(t);
            proof {
                assert(r@.map_values(|t: RawTag| t@) =~= m0.push(
                    GTag { name: g_attr(gelem_of(*c).attrs, "name"@) },
                ));
                assert(gelems_of(post).drop_last() =~= gelems_of(pre));
            }
        } else {
            proof {
                assert(gelems_of(post).drop_last() =~= gelems_of(pre));
            }
        }
        i = i + 1;
    }
    proof {
        assert(e.children@.subrange(0, e.children@.len() as int) =~= e.children@);
    }
    r
}

/// The modifier entries of `e`'s children.
pub fn modifiers_of(e: &XmlElem) -> (r: Vec<RawModifier>)
    ensures
        r@.map_values(|m: RawModifier| m@) == g_mods(gelem_of(*e).children),
{
    let mut r: Vec<RawModifier> = Vec::new();
    let mut i: usize = 0;
    proof {
        assert(e.children@.subrange(0, 0) =~= Seq::<XmlElem>::empty());
        assert(r@.map_values(|m: RawModifier| m@) =~= Seq::<GModifier>::empty());
    }
    while i < e.children.len()
        invariant
            i <= e.children.len(),
            r@.map_values(|m: RawModifier| m@) == g_mods(
                gelems_of(e.children@.subrange(0, i as int)),
            ),
        decreases e.children.len() - i,
    {
        let ghost pre = e.children@.subrange(0, i as int);
        let ghost post = e.children@.subrange(0, i as int + 1);
        proof {
            assert(post =~= pre.push(e.children@[i as int]));
            lemma_gelems_push(pre, e.children@[i as int]);
        }
        let c = &e.children[i];
        if crate::text::str_eq(c.name.as_str(), "modifier") {
            let ghost m0 = r@.map_values(|m: RawModifier| m@);
            let m = RawModifier { class: elem_attr(c, "class"), value: elem_attr(c, "value") };
            r.push(m);
            proof {
                assert(r@.map_values(|m: RawModifier| m@) =~= m0.push(
                    GModifier {
                        class: g_attr(gelem_of(*c).attrs, "class"@),
                        value: g_attr(gelem_of(*c).attrs, "value"@),
                    },
                ));
                assert(gelems_of(post).drop_last() =~= gelems_of(pre));
            }
        } else {
            proof {
                assert(gelems_of(post).drop_last() =~= gelems_of(pre));
            }
        }
        i = i + 1;
    }
    proof {
        assert(e.children@.subrange(0, e.children@.len() as int) =~= e.children@);
    }
    r
}

/// The chain-variant texts of `e`'s children.
pub fn chains_of(e: &XmlElem) -> (r: Vec<String>)
    ensures
        r@.map_values(|s: String| s@) == g_chains(gelem_of(*e).children),
{
    let mut r: Vec<String> = Vec::new();
    let mut i: usize = 0;
    proof {
        assert(e.children@.subrange(0, 0) =~= Seq::<XmlElem>::empty());
        assert(r@.map_values(|s: String| s@) =~= Seq::<Seq<char>>::empty());
    }
    while i < e.children.len()
        invariant
            i <= e.children.len(),
            r@.map_values(|s: String| s@) == g_chains(
                gelems_of(e.children@.subrange(0, i as int)),
            ),
        decreases e.children.len() - i,
    {
        let ghost pre = e.children@.subrange(0, i as int);
        let ghost post = e.children@.subrange(0, i as int + 1);
        proof {
            assert(post =~= pre.push(e.children@[i as int]));
            lemma_gelems_push(pre, e.children@[i as int]);
        }
        let c = &e.children[i];
        if crate::text::str_eq(c.name.as_str(), "nextInChain") {
            let ghost m0 = r@.map_values(|s: String| s@);
            r.push(c.text.clone());
            proof {
                assert(r@.map_values(|s: String| s@) =~= m0.push(gelem_of(*c).text));
                assert(gelems_of(post).drop_last() =~= gelems_of(pre));
            }
        } else {
            proof {
                assert(gelems_of(post).drop_last() =~= gelems_of(pre));
            }
        }
        i = i + 1;
    }
    proof {
        assert(e.children@.subrange(0, e.children@.len() as int) =~= e.children@);
    }
    r
}

/// The stance entries of `e`'s children; `None` when one lacks a required
/// attribute.
pub fn stances_of(e: &XmlElem) -> (r: Option<Vec<RawStance>>)
    ensures
        match r {
            Some(v) => g_stances(gelem_of(*e).children) == Some(
                v@.map_values(|s: RawStance| s@),
            ),
            None => g_stances(gelem_of(*e).children) is None,
        },
{
    let mut r: Vec<RawStance> = Vec::new();
    let mut i: usize = 0;
    proof {
        assert(e.children@.subrange(0, 0) =~= Seq::<XmlElem>::empty());
        assert(r@.map_values(|s: RawStance| s@) =~= Seq::<GStance>::empty());
    }
    while i < e.children.len()
        invariant
            i <= e.children.len(),
            g_stances(gelems_of(e.children@.subrange(0, i as int))) == Some(
                r@.map_values(|s: RawStance| s@),
            ),
        decreases e.children.len() - i,
    {
        let ghost pre = e.children@.subrange(0, i as int);
        let ghost post = e.children@.subrange(0, i as int + 1);
        proof {
            assert(post =~= pre.push(e.children@[i as int]));
            lemma_gelems_push(pre, e.children@[i as int]);
        }
        let c = &e.children[i];
        if crate::text::str_eq(c.name.as_str(), "stance") {
            let k = elem_attr(c, "state_key");
            let a = elem_attr(c, "accuracy");
            match (k, a) {
                (Some(kk), Some(aa)) => {
                    let ghost m0 = r@.map_values(|s: RawStance| s@);
                    let ghost gk = kk@;
                    let ghost ga = aa@;
                    r.push(RawStance { state_key: kk, accuracy: aa });
                    proof {
                        assert(r@.map_values(|s: RawStance| s@) =~= m0.push(
                            GStance { state_key: gk, accuracy: ga },
                        ));
                        assert(gelems_of(post).drop_last() =~= gelems_of(pre));
                    }
                },
                _ => {
                    proof {
                        assert(gelems_of(post).drop_last() =~= gelems_of(pre));
                        assert(g_stances(gelems_of(post)) is None);
                        lemma_gelems_of_len(e.children@);
                        assert(gelems_of(e.children@).subrange(0, i as int + 1)
                            =~= gelems_of(post)) by {
                            assert forall|j: int|
                                0 <= j < i as int + 1 implies gelems_of(e.children@)[j]
                                == gelems_of(post)[j] by {
                                lemma_gelems_of_index(e.children@, j);
                                lemma_gelems_of_index(post, j);
                            }
                            lemma_gelems_of_len(post);
                        }
                        lemma_g_stances_none_extends(gelems_of(e.children@), i as int + 1);
                    }
                    return None;
                },
            }
        } else {
            proof {
                assert(gelems_of(post).drop_last() =~= gelems_of(pre));
            }
        }
        i = i + 1;
    }
    proof {
        assert(e.children@.subrange(0, e.children@.len() as int) =~= e.children@);
    }
    Some(r)
}

/// The specification attributes of `e`, defaulting to all absent.
pub fn specification_of(e: &XmlElem) -> (r: RawSpecification)
    ensures
        r@ == g_spec_of(gelem_of(*e).children),
{
    match first_child_named(e, "specification") {
        Some(el) => RawSpecification {
            retrigger_time: elem_attr(el, "retrigger_time"),
            accuracy_factor: elem_attr(el, "accuracy_factor"),
            sustained_fire_grow_step: elem_attr(el, "sustained_fire_grow_step"),
            sustained_fire_diminish_rate: elem_attr(el, "sustained_fire_diminish_rate"),
            magazine_size: elem_attr(el, "magazine_size"),
            can_shoot_standing: elem_attr(el, "can_shoot_standing"),
            suppressed: elem_attr(el, "suppressed"),
            name: elem_attr(el, "name"),
            class: elem_attr(el, "class"),
            projectile_speed: elem_attr(el, "projectile_speed"),
        },
        None => RawSpecification {
            retrigger_time: None,
            accuracy_factor: None,
            sustained_fire_grow_step: None,
            sustained_fire_diminish_rate: None,
            magazine_size: None,
            can_shoot_standing: None,
            suppressed: None,
            name: None,
            class: None,
            projectile_speed: None,
        },
    }
}

/// The icon reference of `e`, if any.
pub fn hud_icon_of(e: &XmlElem) -> (r: Option<RawHudIcon>)
    ensures
        match r {
            Some(h) => g_hud_of(gelem_of(*e).children) == Some(h@),
            None => g_hud_of(gelem_of(*e).children) is None,
        },
{
    match first_child_named(e, "hud_icon") {
        Some(el) => Some(RawHudIcon { filename: elem_attr(el, "filename") }),
        None => None,
    }
}

/// The inventory block of `e`, if any.
pub fn inventory_of(e: &XmlElem) -> (r: Option<RawInventory>)
    ensures
        match r {
            Some(v) => g_inv_of(gelem_of(*e).children) == Some(v@),
            None => g_inv_of(gelem_of(*e).children) is None,
        },
{
    match first_child_named(e, "inventory") {
        Some(el) => Some(
            RawInventory {
                encumbrance: elem_attr(el, "encumbrance"),
                price: elem_attr(el, "price"),
            },
        ),
        None => None,
    }
}

/// The projectile block of `e`, if any.
pub fn projectile_of(e: &XmlElem) -> (r: Option<RawProjectile>)
    ensures
        match r {
            Some(v) => g_proj_of(gelem_of(*e).children) == Some(v@),
            None => g_proj_of(gelem_of(*e).children) is None,
        },
{
    match first_child_named(e, "projectile") {
        Some(el) => {
            let result = match first_child_named(el, "result") {
                Some(rr) => Some(
                    RawProjectileResult {
                        class: elem_attr(rr, "class"),
                        kill_probability: elem_attr(rr, "kill_probability"),
                        kill_decay_start_time: elem_attr(rr, "kill_decay_start_time"),
                        kill_decay_end_time: elem_attr(rr, "kill_decay_end_time"),
                    },
                ),
                None => None,
            };
            Some(RawProjectile { file: elem_attr(el, "file"), result })
        },
        None => None,
    }
}

/// Scalar merge rule: the child's value when present, else the parent's.
pub open spec fn g_scalar(p: Option<Seq<char>>, c: Option<Seq<char>>) -> Option<Seq<char>> {
    if c is Some {
        c
    } else {
        p
    }
}

/// Field-by-field merge of the specification attributes.
pub open spec fn g_merge_specification(p: GSpecification, c: GSpecification) -> GSpecification {
    GSpecification {
        retrigger_time: g_scalar(p.retrigger_time, c.retrigger_time),
        accuracy_factor: g_scalar(p.accuracy_factor, c.accuracy_factor),
        sustained_fire_grow_step: g_scalar(p.sustained_fire_grow_step, c.sustained_fire_grow_step),
        sustained_fire_diminish_rate: g_scalar(
            p.sustained_fire_diminish_rate,
            c.sustained_fire_diminish_rate,
        ),
        magazine_size: g_scalar(p.magazine_size, c.magazine_size),
        can_shoot_standing: g_scalar(p.can_shoot_standing, c.can_shoot_standing),
        suppressed: g_scalar(p.suppressed, c.suppressed),
        name: g_scalar(p.name, c.name),
        class: g_scalar(p.class, c.class),
        projectile_speed: g_scalar(p.projectile_speed, c.projectile_speed),
    }
}

/// Substructure merge of the icon reference: inherited wholesale when the
/// child lacks it, merged field-by-field when both sides have it.
pub open spec fn g_merge_hud(p: Option<GHudIcon>, c: Option<GHudIcon>) -> Option<GHudIcon> {
    match (p, c) {
        (Some(pp), Some(cc)) => Some(GHudIcon { filename: g_scalar(pp.filename, cc.filename) }),
        (Some(pp), None) => Some(pp),
        (None, cc) => cc,
    }
}

/// Substructure merge of the inventory block.
pub open spec fn g_merge_inventory(p: Option<GInventory>, c: Option<GInventory>) -> Option<
    GInventory,
> {
    match (p, c) {
        (Some(pp), Some(cc)) => Some(
            GInventory {
                encumbrance: g_scalar(pp.encumbrance, cc.encumbrance),
                price: g_scalar(pp.price, cc.price),
            },
        ),
        (Some(pp), None) => Some(pp),
        (None, cc) => cc,
    }
}

/// Substructure merge of the projectile block, applied recursively to the
/// nested result element.
pub open spec fn g_merge_projectile(p: Option<GProjectile>, c: Option<GProjectile>) -> Option<
    GProjectile,
> {
    match (p, c) {
        (Some(pp), Some(cc)) => Some(
            GProjectile {
                file: g_scalar(pp.file, cc.file),
                result: match (pp.result, cc.result) {
                    (Some(pr), Some(cr)) => Some(
                        GProjectileResult {
                            class: g_scalar(pr.class, cr.class),
                            kill_probability: g_scalar(pr.kill_probability, cr.kill_probability),
                            kill_decay_start_time: g_scalar(
                                pr.kill_decay_start_time,
                                cr.kill_decay_start_time,
                            ),
                            kill_decay_end_time: g_scalar(
                                pr.kill_decay_end_time,
                                cr.kill_decay_end_time,
                            ),
                        },
                    ),
                    (Some(pr), None) => Some(pr),
                    (None, cr) => cr,
                },
            },
        ),
        (Some(pp), None) => Some(pp),
        (None, cc) => cc,
    }
}

/// Whether some tag in `ts` carries exactly the name `n`.
pub open spec fn g_has_tag_name(ts: Seq<GTag>, n: Option<Seq<char>>) -> bool {
    exists|i: int| 0 <= i < ts.len() && ts[i].name == n
}

/// The parent tags whose names the child does not already declare.
pub open spec fn g_keep_tags(p: Seq<GTag>, c: Seq<GTag>) -> Seq<GTag>
    decreases p.len(),
{
    if p.len() == 0 {
        Seq::empty()
    } else {
        let r = g_keep_tags(p.drop_last(), c);
        if g_has_tag_name(c, p.last().name) {
            r
        } else {
            r.push(p.last())
        }
    }
}

/// Inserts a stance into a key-sorted stance list, replacing the entry
/// with the same key if one exists.
pub open spec fn g_stance_upsert(s: Seq<GStance>, st: GStance) -> Seq<GStance>
    decreases s.len(),
{
    if s.len() == 0 {
        seq![st]
    } else if s[0].state_key == st.state_key {
        seq![st] + s.subrange(1, s.len() as int)
    } else if crate::text::lex_lt(st.state_key, s[0].state_key) {
        seq![st] + s
    } else {
        seq![s[0]] + g_stance_upsert(s.subrange(1, s.len() as int), st)
    }
}

/// Inserts each stance of `adds`, in order, into `s`.
pub open spec fn g_stance_upsert_all(s: Seq<GStance>, adds: Seq<GStance>) -> Seq<GStance>
    decreases adds.len(),
{
    if adds.len() == 0 {
        s
    } else {
        g_stance_upsert(g_stance_upsert_all(s, adds.drop_last()), adds.last())
    }
}

/// The keyed merge of per-stance values: the parent's entries seeded
/// first, the child's overriding on equal keys, emitted sorted by key.
pub open spec fn g_merged_stances(p: Seq<GStance>, c: Seq<GStance>) -> Seq<GStance> {
    g_stance_upsert_all(g_stance_upsert_all(Seq::empty(), p), c)
}

/// Merge of one parent bag into one child bag: scalars and substructures
/// by the child-wins rule, tags additively by name, stances by key, chain
/// variants appended.
pub open spec fn g_merge_weapon(p: GWeapon, c: GWeapon) -> GWeapon {
    GWeapon {
        key: c.key,
        template_file: c.template_file,
        tags: c.tags + g_keep_tags(p.tags, c.tags),
        specification: g_merge_specification(p.specification, c.specification),
        hud_icon: g_merge_hud(p.hud_icon, c.hud_icon),
        inventory: g_merge_inventory(p.inventory, c.inventory),
        projectile: g_merge_projectile(p.projectile, c.projectile),
        modifiers: c.modifiers,
        chain_variants: c.chain_variants + p.chain_variants,
        stances: g_merged_stances(p.stances, c.stances),
    }
}

/// The accuracy stored under a key, at its first occurrence.
pub open spec fn g_stance_lookup(s: Seq<GStance>, k: Seq<char>) -> Option<Seq<char>>
    decreases s.len(),
{
    if s.len() == 0 {
        None
    } else if s[0].state_key == k {
        Some(s[0].accuracy)
    } else {
        g_stance_lookup(s.subrange(1, s.len() as int), k)
    }
}

/// The accuracy stored under a key, at its last occurrence.
pub open spec fn g_stance_rlookup(s: Seq<GStance>, k: Seq<char>) -> Option<Seq<char>>
    decreases s.len(),
{
    if s.len() == 0 {
        None
    } else if s.last().state_key == k {
        Some(s.last().accuracy)
    } else {
        g_stance_rlookup(s.drop_last(), k)
    }
}

/// Whether a stance list is strictly sorted by key.
pub open spec fn g_stances_sorted(s: Seq<GStance>) -> bool {
    forall|i: int, j: int|
        0 <= i < j < s.len() ==> crate::text::lex_lt(
            (#[trigger] s[i]).state_key,
            (#[trigger] s[j]).state_key,
        )
}

/// Strict lexicographic order is irreflexive.
pub proof fn lemma_lex_irrefl(a: Seq<char>)
    ensures
        !crate::text::lex_lt(a, a),
    decreases a.len(),
{
    if a.len() > 0 {
        lemma_lex_irrefl(a.subrange(1, a.len() as int));
    }
}

/// Two distinct texts are strictly ordered one way or the other.
pub proof fn lemma_lex_total(a: Seq<char>, b: Seq<char>)
    requires
        a != b,
    ensures
        crate::text::lex_lt(a, b) || crate::text::lex_lt(b, a),
    decreases a.len() + b.len(),
{
    if a.len() == 0 && b.len() == 0 {
        assert(a =~= b);
    } else if a.len() == 0 {
        assert(crate::text::lex_lt(a, b));
    } else if b.len() == 0 {
        assert(crate::text::lex_lt(b, a));
    } else if a[0] == b[0] {
        assert(a.subrange(1, a.len() as int) != b.subrange(1, b.len() as int)) by {
            if a.subrange(1, a.len() as int) == b.subrange(1, b.len() as int) {
                assert(a.subrange(1, a.len() as int).len() == a.len() - 1);
                assert(b.subrange(1, b.len() as int).len() == b.len() - 1);
                assert(a.len() == b.len());
                assert forall|k: int| 0 <= k < a.len() implies a[k] == b[k] by {
                    if k > 0 {
                        assert(a.subrange(1, a.len() as int)[k - 1] == a[k]);
                        assert(b.subrange(1, b.len() as int)[k - 1] == b[k]);
                    }
                }
                assert(a =~= b);
            }
        }
        lemma_lex_total(a.subrange(1, a.len() as int), b.subrange(1, b.len() as int));
    } else {
        if a[0] < b[0] {
            assert(crate::text::lex_lt(a, b));
        } else {
            assert(b[0] < a[0]);
            assert(crate::text::lex_lt(b, a));
        }
    }
}

/// Strict lexicographic order is transitive.
pub proof fn lemma_lex_trans(a: Seq<char>, b: Seq<char>, c: Seq<char>)
    requires
        crate::text::lex_lt(a, b),
        crate::text::lex_lt(b, c),
    ensures
        crate::text::lex_lt(a, c),
    decreases a.len() + b.len() + c.len(),
{
    if a.len() > 0 && b.len() > 0 && c.len() > 0 && a[0] == b[0] && b[0] == c[0] {
        lemma_lex_trans(
            a.subrange(1, a.len() as int),
            b.subrange(1, b.len() as int),
            c.subrange(1, c.len() as int),
        );
    }
}

/// Inserting one stance preserves sortedness and acts as a keyed store:
/// the inserted key now maps to the inserted accuracy, every other key
/// is unchanged.
#[verifier::rlimit(50)]
#[verifier::spinoff_prover]
pub proof fn lemma_upsert_store(s: Seq<GStance>, st: GStance, k: Seq<char>)
    requires
        g_stances_sorted(s),
    ensures
        g_stances_sorted(g_stance_upsert(s, st)),
        g_stance_lookup(g_stance_upsert(s, st), st.state_key) == Some(st.accuracy),
        k != st.state_key ==> g_stance_lookup(g_stance_upsert(s, st), k) == g_stance_lookup(s, k),
    decreases s.len(),
{
    let out = g_stance_upsert(s, st);
    if s.len() == 0 {
        assert(out =~= seq![st]);
        assert(out[0] == st);
        assert(out.subrange(1, out.len() as int).len() == 0);
        assert(g_stance_lookup(out, st.state_key) == Some(st.accuracy));
        if k != st.state_key {
            assert(g_stance_lookup(out, k) == g_stance_lookup(out.subrange(1, out.len() as int), k));
            assert(g_stance_lookup(out, k) == g_stance_lookup(s, k));
        }
    } else if s[0].state_key == st.state_key {
        let tail = s.subrange(1, s.len() as int);
        assert(out =~= seq![st] + tail);
        assert(out[0] == st);
        assert forall|i: int, j: int| 0 <= i < j < out.len() implies crate::text::lex_lt(
            (#[trigger] out[i]).state_key,
            (#[trigger] out[j]).state_key,
        ) by {
            if i == 0 {
                assert(out[j] == s[j]);
            } else {
                assert(out[i] == s[i]);
                assert(out[j] == s[j]);
            }
        }
        assert(out.subrange(1, out.len() as int) =~= tail);
        assert(g_stance_lookup(out, st.state_key) == Some(st.accuracy));
        if k != st.state_key {
            assert(g_stance_lookup(s, k) == g_stance_lookup(tail, k));
            assert(g_stance_lookup(out, k) == g_stance_lookup(tail, k));
        }
    } else if crate::text::lex_lt(st.state_key, s[0].state_key) {
        assert(out =~= seq![st] + s);
        assert forall|i: int, j: int| 0 <= i < j < out.len() implies crate::text::lex_lt(
            (#[trigger] out[i]).state_key,
            (#[trigger] out[j]).state_key,
        ) by {
            if i == 0 {
                assert(out[j] == s[j - 1]);
                if j > 1 {
                    lemma_lex_trans(st.state_key, s[0].state_key, s[j - 1].state_key);
                }
            } else {
                assert(out[i] == s[i - 1]);
                assert(out[j] == s[j - 1]);
            }
        }
        assert(out.subrange(1, out.len() as int) =~= s);
        assert(out[0] == st);
        assert(g_stance_lookup(out, st.state_key) == Some(st.accuracy));
        if k != st.state_key {
            assert(g_stance_lookup(out, k) == g_stance_lookup(s, k));
        }
    } else {
        let tail = s.subrange(1, s.len() as int);
        let rec = g_stance_upsert(tail, st);
        assert(out =~= seq![s[0]] + rec);
        assert(g_stances_sorted(tail)) by {
            assert forall|i: int, j: int| 0 <= i < j < tail.len() implies crate::text::lex_lt(
                (#[trigger] tail[i]).state_key,
                (#[trigger] tail[j]).state_key,
            ) by {
                assert(tail[i] == s[i + 1]);
                assert(tail[j] == s[j + 1]);
            }
        }
        lemma_upsert_store(tail, st, k);
        // the head's key sorts before every key in the recursion's result
        assert(crate::text::lex_lt(s[0].state_key, st.state_key)) by {
            lemma_lex_total(s[0].state_key, st.state_key);
        }
        assert forall|i: int, j: int| 0 <= i < j < out.len() implies crate::text::lex_lt(
            (#[trigger] out[i]).state_key,
            (#[trigger] out[j]).state_key,
        ) by {
            if i == 0 {
                assert(out[j] == rec[j - 1]);
                lemma_upsert_member(tail, st, j - 1);
                let key_j = rec[j - 1].state_key;
                if key_j == st.state_key {
                    assert(crate::text::lex_lt(s[0].state_key, key_j));
                } else {
                    let m = choose|m: int| 0 <= m < tail.len() && tail[m] == rec[j - 1];
                    assert(tail[m] == s[m + 1]);
                    assert(crate::text::lex_lt(s[0].state_key, s[m + 1].state_key));
                }
            } else {
                assert(out[i] == rec[i - 1]);
                assert(out[j] == rec[j - 1]);
            }
        }
        assert(out[0] == s[0]);
        assert(out.subrange(1, out.len() as int) =~= rec);
        assert(s[0].state_key != st.state_key);
        assert(out[0] == s[0]);
        assert(s[0].state_key != st.state_key);
        assert(g_stance_lookup(out, st.state_key) == g_stance_lookup(rec, st.state_key));
        assert(g_stance_lookup(out, st.state_key) == Some(st.accuracy));
        if k != st.state_key {
            if s[0].state_key == k {
                assert(g_stance_lookup(out, k) == Some(s[0].accuracy));
                assert(g_stance_lookup(s, k) == Some(s[0].accuracy));
            } else {
                assert(g_stance_lookup(s, k) == g_stance_lookup(tail, k));
                assert(g_stance_lookup(out, k) == g_stance_lookup(rec, k));
                assert(g_stance_lookup(out, k) == g_stance_lookup(s, k));
            }
        }
    }
}

/// Every entry of an upsert's result is the inserted stance or one of
/// the original entries.
pub proof fn lemma_upsert_member(s: Seq<GStance>, st: GStance, i: int)
    requires
        0 <= i < g_stance_upsert(s, st).len(),
    ensures
        g_stance_upsert(s, st)[i] == st || exists|m: int|
            0 <= m < s.len() && s[m] == g_stance_upsert(s, st)[i],
    decreases s.len(),
{
    let out = g_stance_upsert(s, st);
    if s.len() == 0 {
    } else if s[0].state_key == st.state_key {
        if i > 0 {
            assert(out[i] == s.subrange(1, s.len() as int)[i - 1]);
            assert(s[i] == out[i]);
        }
    } else if crate::text::lex_lt(st.state_key, s[0].state_key) {
        if i > 0 {
            assert(out[i] == s[i - 1]);
        }
    } else {
        let tail = s.subrange(1, s.len() as int);
        if i == 0 {
            assert(out[0] == s[0]);
        } else {
            assert(out[i] == g_stance_upsert(tail, st)[i - 1]);
            lemma_upsert_member(tail, st, i - 1);
            if g_stance_upsert(tail, st)[i - 1] != st {
                let m = choose|m: int|
                    0 <= m < tail.len() && tail[m] == g_stance_upsert(tail, st)[i - 1];
                assert(s[m + 1] == out[i]);
            }
        }
    }
}

/// Inserting a batch of stances in order keeps the list sorted and
/// stores each key's last inserted accuracy, leaving other keys alone.
pub proof fn lemma_upsert_all_store(s: Seq<GStance>, adds: Seq<GStance>, k: Seq<char>)
    requires
        g_stances_sorted(s),
    ensures
        g_stances_sorted(g_stance_upsert_all(s, adds)),
        g_stance_lookup(g_stance_upsert_all(s, adds), k) == (match g_stance_rlookup(adds, k) {
            Some(a) => Some(a),
            None => g_stance_lookup(s, k),
        }),
    decreases adds.len(),
{
    if adds.len() > 0 {
        lemma_upsert_all_store(s, adds.drop_last(), k);
        let mid = g_stance_upsert_all(s, adds.drop_last());
        lemma_upsert_store(mid, adds.last(), k);
        if adds.last().state_key == k {
        } else {
        }
    }
}

/// Keyed per-state merge law: merging a parent's stances with a child's
/// yields a key-sorted list where the child's value wins on every key it
/// sets (its last setting, when it repeats a key), the parent's value
/// fills every other key it set, and no other key appears.
pub proof fn lemma_stance_merge(p: Seq<GStance>, c: Seq<GStance>, k: Seq<char>)
    ensures
        g_stances_sorted(g_merged_stances(p, c)),
        g_stance_lookup(g_merged_stances(p, c), k) == (match g_stance_rlookup(c, k) {
            Some(a) => Some(a),
            None => g_stance_rlookup(p, k),
        }),
{
    let seeded = g_stance_upsert_all(Seq::empty(), p);
    lemma_upsert_all_store(Seq::empty(), p, k);
    lemma_upsert_all_store(seeded, c, k);
}

/// Identity law: a bag that declares no template reference resolves to
/// itself, unchanged and without an error note.
pub proof fn lemma_no_template_identity(
    t: Seq<crate::fstable::GFile>,
    wp: Seq<Seq<char>>,
    raw: GWeapon,
)
    requires
        raw.template_file is None,
    ensures
        g_resolved_bag(t, wp, raw) == Ok::<(GWeapon, Option<Seq<char>>), Seq<char>>((raw, None)),
{
}

/// Scalar precedence law: in a merge of one parent into one child, every
/// scalar the child sets is kept verbatim, and every scalar it omits
/// takes the parent's value.
pub proof fn lemma_scalar_child_precedence(p: GWeapon, c: GWeapon)
    ensures
        g_merge_weapon(p, c).specification == g_merge_specification(p.specification, c.specification),
        forall|ps: GSpecification, cs: GSpecification|
            (#[trigger] g_merge_specification(ps, cs)).retrigger_time == if cs.retrigger_time
                is Some {
                cs.retrigger_time
            } else {
                ps.retrigger_time
            },
        forall|ps: GSpecification, cs: GSpecification|
            (#[trigger] g_merge_specification(ps, cs)).magazine_size == if cs.magazine_size
                is Some {
                cs.magazine_size
            } else {
                ps.magazine_size
            },
        forall|ps: GSpecification, cs: GSpecification|
            (#[trigger] g_merge_specification(ps, cs)).name == if cs.name is Some {
                cs.name
            } else {
                ps.name
            },
        forall|ps: GSpecification, cs: GSpecification|
            (#[trigger] g_merge_specification(ps, cs)).class == if cs.class is Some {
                cs.class
            } else {
                ps.class
            },
        forall|ps: GSpecification, cs: GSpecification|
            (#[trigger] g_merge_specification(ps, cs)).suppressed == if cs.suppressed is Some {
                cs.suppressed
            } else {
                ps.suppressed
            },
        forall|ps: GSpecification, cs: GSpecification|
            (#[trigger] g_merge_specification(ps, cs)).projectile_speed == if cs.projectile_speed
                is Some {
                cs.projectile_speed
            } else {
                ps.projectile_speed
            },
        g_merge_weapon(p, c).key == c.key,
        g_merge_weapon(p, c).template_file == c.template_file,
        g_merge_weapon(p, c).modifiers == c.modifiers,
        g_merge_weapon(p, c).chain_variants == c.chain_variants + p.chain_variants,
{
}

/// Cycle law: a template reference whose resolved path was already
/// visited yields the cycle error at once, with no merge applied.
pub proof fn lemma_revisit_cycle(
    t: Seq<crate::fstable::GFile>,
    base_dir: Seq<Seq<char>>,
    tref: Seq<char>,
    visited: Seq<Seq<Seq<char>>>,
)
    requires
        visited.contains(crate::fstable::g_template_path(t, base_dir, tref, "weapons"@)),
    ensures
        g_resolve(t, base_dir, tref, visited) == Err::<GWeapon, GResolveError>(
            GResolveError::Cycle { reference: tref },
        ),
{
}

/// Self-reference law: a template file whose own reference resolves back
/// to itself yields the cycle error after one step, not an endless
/// descent.
pub proof fn lemma_self_reference_cycle(
    t: Seq<crate::fstable::GFile>,
    base_dir: Seq<Seq<char>>,
    tref: Seq<char>,
    bag: GWeapon,
)
    requires
        MAX_TEMPLATE_DEPTH >= 1,
        ({
            let tp = crate::fstable::g_template_path(t, base_dir, tref, "weapons"@);
            &&& tp.len() > 0
            &&& crate::fstable::g_lookup(t, tp) is Some
            &&& (match crate::markup::sp_document(crate::fstable::g_lookup(t, tp)->Some_0) {
                Some(root) => g_weapon_of(root) == Some(bag),
                None => false,
            })
            &&& bag.template_file is Some
            &&& crate::fstable::g_template_path(
                t,
                tp.drop_last(),
                bag.template_file->Some_0,
                "weapons"@,
            ) == tp
        }),
    ensures
        g_resolve(t, base_dir, tref, Seq::empty()) == Err::<GWeapon, GResolveError>(
            GResolveError::Cycle { reference: bag.template_file->Some_0 },
        ),
{
    let tp = crate::fstable::g_template_path(t, base_dir, tref, "weapons"@);
    assert(!Seq::<Seq<Seq<char>>>::empty().contains(tp));
    let visited1 = Seq::<Seq<Seq<char>>>::empty().push(tp);
    assert(visited1.contains(tp)) by {
        assert(visited1[0] == tp);
    }
    lemma_revisit_cycle(t, tp.drop_last(), bag.template_file->Some_0, visited1);
}

/// Depth law: once the chain has visited the maximum number of
/// templates, the next unvisited reference yields the depth error, and
/// no merge beyond the limit is applied.
pub proof fn lemma_depth_exceeded(
    t: Seq<crate::fstable::GFile>,
    base_dir: Seq<Seq<char>>,
    tref: Seq<char>,
    visited: Seq<Seq<Seq<char>>>,
)
    requires
        !visited.contains(crate::fstable::g_template_path(t, base_dir, tref, "weapons"@)),
        visited.len() >= MAX_TEMPLATE_DEPTH,
    ensures
        g_resolve(t, base_dir, tref, visited) == Err::<GWeapon, GResolveError>(
            GResolveError::Depth,
        ),
{
}

/// Whether the template file at `tp` reads and parses to a weapon bag
/// that itself declares `next` as its template reference.
pub open spec fn g_tp_declares(
    t: Seq<crate::fstable::GFile>,
    tp: Seq<Seq<char>>,
    next: Seq<char>,
) -> bool {
    match crate::fstable::g_lookup(t, tp) {
        Some(content) => match crate::markup::sp_document(content) {
            Some(root) => match g_weapon_of(root) {
                Some(bag) => bag.template_file == Some(next),
                None => false,
            },
            None => false,
        },
        None => false,
    }
}

/// Indirect-cycle law: a chain that returns to an already-resolved
/// template path through an intermediate file yields the cycle error
/// from a fresh call, after finitely many steps and with no merge
/// applied.
pub proof fn lemma_indirect_cycle(
    t: Seq<crate::fstable::GFile>,
    base_dir: Seq<Seq<char>>,
    tref: Seq<char>,
    ref2: Seq<char>,
    ref3: Seq<char>,
)
    requires
        MAX_TEMPLATE_DEPTH >= 2,
        ({
            let tp1 = crate::fstable::g_template_path(t, base_dir, tref, "weapons"@);
            let tp2 = crate::fstable::g_template_path(t, tp1.drop_last(), ref2, "weapons"@);
            &&& tp1.len() > 0
            &&& g_tp_declares(t, tp1, ref2)
            &&& tp2 != tp1
            &&& tp2.len() > 0
            &&& g_tp_declares(t, tp2, ref3)
            &&& crate::fstable::g_template_path(t, tp2.drop_last(), ref3, "weapons"@) == tp1
        }),
    ensures
        g_resolve(t, base_dir, tref, Seq::empty()) == Err::<GWeapon, GResolveError>(
            GResolveError::Cycle { reference: ref3 },
        ),
{
    let tp1 = crate::fstable::g_template_path(t, base_dir, tref, "weapons"@);
    let tp2 = crate::fstable::g_template_path(t, tp1.drop_last(), ref2, "weapons"@);
    assert(!Seq::<Seq<Seq<char>>>::empty().contains(tp1));
    let v1 = Seq::<Seq<Seq<char>>>::empty().push(tp1);
    assert(!v1.contains(tp2)) by {
        assert(forall|j: int| 0 <= j < v1.len() ==> v1[j] == tp1);
    }
    let v2 = v1.push(tp2);
    assert(v2.contains(tp1)) by {
        assert(v2[0] == tp1);
    }
    lemma_revisit_cycle(t, tp2.drop_last(), ref3, v2);
    assert(g_resolve(t, tp2.drop_last(), ref3, v2) == Err::<GWeapon, GResolveError>(
        GResolveError::Cycle { reference: ref3 },
    ));
    assert(g_resolve(t, tp1.drop_last(), ref2, v1) == Err::<GWeapon, GResolveError>(
        GResolveError::Cycle { reference: ref3 },
    ));
}

/// The first `n` links of a template chain hold together: position
/// `i`'s reference resolves to the path `tps[i]` (from the base
/// directory at the head, from the previous template's directory after
/// it), and each linked file except the last declares the next
/// reference.
pub open spec fn g_chain_links(
    t: Seq<crate::fstable::GFile>,
    base_dir: Seq<Seq<char>>,
    refs: Seq<Seq<char>>,
    tps: Seq<Seq<Seq<char>>>,
    n: int,
) -> bool {
    &&& refs.len() >= n
    &&& tps.len() >= n
    &&& (forall|i: int|
        0 <= i < n ==> #[trigger] tps[i] == crate::fstable::g_template_path(
            t,
            if i == 0 {
                base_dir
            } else {
                tps[i - 1].drop_last()
            },
            refs[i],
            "weapons"@,
        ))
    &&& (forall|i: int| 0 <= i < n - 1 ==> (#[trigger] tps[i]).len() > 0)
    &&& (forall|i: int| 0 <= i < n - 1 ==> g_tp_declares(t, #[trigger] tps[i], refs[i + 1]))
}

/// Depth law over a whole chain: a chain of more than
/// `MAX_TEMPLATE_DEPTH` templates, none of whose paths repeats, ends in
/// the depth error from a fresh call, and no merge beyond the limit is
/// applied.
pub proof fn lemma_chain_depth_exceeded(
    t: Seq<crate::fstable::GFile>,
    base_dir: Seq<Seq<char>>,
    refs: Seq<Seq<char>>,
    tps: Seq<Seq<Seq<char>>>,
)
    requires
        g_chain_links(t, base_dir, refs, tps, MAX_TEMPLATE_DEPTH + 1),
        forall|a: int, b: int|
            0 <= a < b <= MAX_TEMPLATE_DEPTH ==> tps[a] != tps[b],
    ensures
        g_resolve(t, base_dir, refs[0], Seq::empty()) == Err::<GWeapon, GResolveError>(
            GResolveError::Depth,
        ),
{
    assert(Seq::<Seq<Seq<char>>>::empty() =~= tps.subrange(0, 0));
    lemma_chain_depth_from(t, base_dir, refs, tps, 0);
}

/// One inductive step of the whole-chain depth law: from position `i`
/// of the chain, with the first `i` chain paths already visited, the
/// resolution ends in the depth error.
proof fn lemma_chain_depth_from(
    t: Seq<crate::fstable::GFile>,
    base_dir: Seq<Seq<char>>,
    refs: Seq<Seq<char>>,
    tps: Seq<Seq<Seq<char>>>,
    i: int,
)
    requires
        0 <= i <= MAX_TEMPLATE_DEPTH,
        g_chain_links(t, base_dir, refs, tps, MAX_TEMPLATE_DEPTH + 1),
        forall|a: int, b: int|
            0 <= a < b <= MAX_TEMPLATE_DEPTH ==> tps[a] != tps[b],
    ensures
        g_resolve(
            t,
            if i == 0 {
                base_dir
            } else {
                tps[i - 1].drop_last()
            },
            refs[i],
            tps.subrange(0, i),
        ) == Err::<GWeapon, GResolveError>(GResolveError::Depth),
    decreases MAX_TEMPLATE_DEPTH - i,
{
    let dir = if i == 0 {
        base_dir
    } else {
        tps[i - 1].drop_last()
    };
    let visited = tps.subrange(0, i);
    let tp = crate::fstable::g_template_path(t, dir, refs[i], "weapons"@);
    assert(tp == tps[i]);
    assert(!visited.contains(tp)) by {
        assert(forall|j: int| 0 <= j < i ==> visited[j] == tps[j]);
    }
    if i == MAX_TEMPLATE_DEPTH {
        assert(visited.len() + 1 > MAX_TEMPLATE_DEPTH);
    } else {
        assert(g_tp_declares(t, tps[i], refs[i + 1]));
        assert(tps[i].len() > 0);
        lemma_chain_depth_from(t, base_dir, refs, tps, i + 1);
        assert(visited.push(tp) =~= tps.subrange(0, i + 1));
    }
}

/// Broken-chain law: a file whose template chain fails still yields a
/// record, not an error; the record's fields reflect the unresolved raw
/// bag and its error note carries the failure's description.
pub proof fn lemma_broken_chain_record(
    t: Seq<crate::fstable::GFile>,
    wp: Seq<Seq<char>>,
    input: Seq<Seq<char>>,
    id: Seq<char>,
    srcdir: Seq<char>,
    raw: GWeapon,
    e: GResolveError,
)
    requires
        wp.len() > 0,
        crate::fstable::g_lookup(t, wp) is Some,
        (match crate::markup::sp_document(crate::fstable::g_lookup(t, wp)->Some_0) {
            Some(root) => g_weapon_of(root) == Some(raw),
            None => false,
        }),
        raw.template_file is Some,
        g_resolve(t, wp.drop_last(), raw.template_file->Some_0, Seq::empty()) == Err::<
            GWeapon,
            GResolveError,
        >(e),
    ensures
        g_parse_weapon_file(t, wp, input, id, srcdir) == Ok::<GWeaponRecord, Seq<char>>(
            g_record_of(
                wp,
                input,
                id,
                srcdir,
                raw,
                Some("Template resolution failed: "@ + g_error_message(e)),
            ),
        ),
{
}

/// Empty-scan law: over an existing scan path under which nothing was
/// discovered, the collecting scan yields the empty result, not an
/// error.
pub proof fn lemma_empty_scan(
    t: Seq<crate::fstable::GFile>,
    scan_path: Seq<Seq<char>>,
    scan_time: u64,
)
    requires
        g_discover(t, scan_path, "weapon"@).len() == 0,
    ensures
        g_scan_weapons(t, scan_path, true, scan_time) == Ok::<GWeaponScanResult, Seq<char>>(
            GWeaponScanResult {
                weapons: Seq::empty(),
                errors: Seq::empty(),
                duplicate_keys: Seq::empty(),
                scan_time,
            },
        ),
{
    let files = g_discover(t, scan_path, "weapon"@);
    assert(files.len() == 0);
    assert(g_scan_fold(t, scan_path, crate::fspath::abs_display(scan_path), files) == (
        Seq::<GWeaponRecord>::empty(),
        Seq::<GScanError>::empty(),
    ));
    assert(g_rec_keys(Seq::<GWeaponRecord>::empty()) =~= Seq::<Option<Seq<char>>>::empty());
    assert(crate::dupkeys::g_dup_keys(Seq::<Option<Seq<char>>>::empty())
        =~= Seq::<Seq<char>>::empty());
}

/// Duplicate-report law for a whole scan: a key stands in the result's
/// duplicate list exactly when two or more of the emitted records carry
/// it, and the records themselves all remain in the result.
pub proof fn lemma_scan_duplicate_keys(
    t: Seq<crate::fstable::GFile>,
    scan_path: Seq<Seq<char>>,
    scan_time: u64,
    k: Seq<char>,
)
    ensures
        (match g_scan_weapons(t, scan_path, true, scan_time) {
            Ok(res) => res.duplicate_keys.contains(k) <==> crate::dupkeys::g_key_count(
                g_rec_keys(res.weapons),
                k,
            ) >= 2,
            Err(_) => true,
        }),
{
    match g_scan_weapons(t, scan_path, true, scan_time) {
        Ok(res) => {
            crate::dupkeys::lemma_dup_keys_iff(g_rec_keys(res.weapons), k);
        },
        Err(_) => {},
    }
}

/// The base64 text of a byte sequence. Names what the base64 crate's
/// standard-alphabet encoder returns; the result depends on the bytes
/// alone.
pub uninterp spec fn base64_of(bs: Seq<u8>) -> Seq<char>;

/// Relies on the base64 crate's standard engine: `Engine::encode` is a
/// function of the input bytes alone, named by `base64_of`, and an empty
/// input encodes to the empty text.
#[verifier::external_body]
fn base64_encode(data: &Vec<u8>) -> (r: String)
    ensures
        r@ == base64_of(data@),
        data@.len() == 0 ==> r@.len() == 0,
{
    base64::engine::general_purpose::STANDARD.encode(data)
}

/// The texture path probed for an icon: the `textures` directory beside
/// the definition file's directory, with the icon's filename.
pub open spec fn g_texture_path(file: Seq<Seq<char>>, icon: Seq<char>) -> Seq<Seq<char>> {
    file.subrange(0, file.len() - 2).push("textures"@).push(icon)
}

/// Where an icon file is expected: in the `textures` directory beside
/// the definition file's own directory. `None` when the file path is too
/// shallow to have one.
pub fn texture_path(definition_file: &FsPath, icon_filename: &str) -> (r: Option<FsPath>)
    ensures
        match r {
            Some(p) => definition_file@.len() >= 2 && p@ == g_texture_path(
                definition_file@,
                icon_filename@,
            ),
            None => definition_file@.len() < 2,
        },
{
    match definition_file.ancestor_up(2) {
        Some(base) => Some(base.child("textures").child(icon_filename)),
        None => None,
    }
}

/// The image media type for a file extension: the well-known raster
/// types by name, the portable network graphics type otherwise.
pub open spec fn g_mime_type(ext: Option<Seq<char>>) -> Seq<char> {
    match ext {
        Some(e) => if e == "png"@ {
            "image/png"@
        } else if e == "jpg"@ || e == "jpeg"@ {
            "image/jpeg"@
        } else if e == "gif"@ {
            "image/gif"@
        } else if e == "webp"@ {
            "image/webp"@
        } else {
            "image/png"@
        },
        None => "image/png"@,
    }
}

/// Picks the media type for an icon path's extension.
pub fn mime_type_for(icon_path: &FsPath) -> (r: String)
    ensures
        r@ == g_mime_type(
            if icon_path@.len() > 0 {
                crate::fspath::g_ext(icon_path@.last())
            } else {
                None
            },
        ),
{
    match icon_path.extension() {
        Some(e) => {
            if crate::text::str_eq(e.as_str(), "png") {
                String::from_str("image/png")
            } else if crate::text::str_eq(e.as_str(), "jpg") || crate::text::str_eq(
                e.as_str(),
                "jpeg",
            ) {
                String::from_str("image/jpeg")
            } else if crate::text::str_eq(e.as_str(), "gif") {
                String::from_str("image/gif")
            } else if crate::text::str_eq(e.as_str(), "webp") {
                String::from_str("image/webp")
            } else {
                String::from_str("image/png")
            }
        },
        None => String::from_str("image/png"),
    }
}

/// Renders an icon's bytes as a data URL: the media type picked from the
/// icon path's extension, the payload base64-encoded.
pub fn icon_data_url(icon_path: &FsPath, image_data: &Vec<u8>) -> (r: String)
    ensures
        r@ == "data:"@ + g_mime_type(
            if icon_path@.len() > 0 {
                crate::fspath::g_ext(icon_path@.last())
            } else {
                None
            },
        ) + ";base64,"@ + base64_of(image_data@),
{
    let mime = mime_type_for(icon_path);
    let payload = base64_encode(image_data);
    let mut out: Vec<char> = Vec::new();
    push_str_chars(&mut out, "data:");
    push_str_chars(&mut out, mime.as_str());
    push_str_chars(&mut out, ";base64,");
    push_str_chars(&mut out, payload.as_str());
    proof {
        assert(Seq::<char>::empty() + "data:"@ =~= "data:"@);
    }
    crate::text::chars_to_string(&out)
}

/// Copy of an optional string.
pub fn clone_opt(o: &Option<String>) -> (r: Option<String>)
    ensures
        opt_str(r) == opt_str(*o),
{
    match o {
        Some(s) => Some(s.clone()),
        None => None,
    }
}

/// Merges the parent's specification attributes into the child's: each
/// attribute the child leaves absent takes the parent's value.
pub fn merge_specification(parent: &RawSpecification, child: &mut RawSpecification)
    ensures
        final(child)@ == g_merge_specification(parent@, old(child)@),
{
    if child.retrigger_time.is_none() {
        child.retrigger_time = clone_opt(&parent.retrigger_time);
    }
    if child.accuracy_factor.is_none() {
        child.accuracy_factor = clone_opt(&parent.accuracy_factor);
    }
    if child.sustained_fire_grow_step.is_none() {
        child.sustained_fire_grow_step = clone_opt(&parent.sustained_fire_grow_step);
    }
    if child.sustained_fire_diminish_rate.is_none() {
        child.sustained_fire_diminish_rate = clone_opt(&parent.sustained_fire_diminish_rate);
    }
    if child.magazine_size.is_none() {
        child.magazine_size = clone_opt(&parent.magazine_size);
    }
    if child.can_shoot_standing.is_none() {
        child.can_shoot_standing = clone_opt(&parent.can_shoot_standing);
    }
    if child.suppressed.is_none() {
        child.suppressed = clone_opt(&parent.suppressed);
    }
    if child.name.is_none() {
        child.name = clone_opt(&parent.name);
    }
    if child.class.is_none() {
        child.class = clone_opt(&parent.class);
    }
    if child.projectile_speed.is_none() {
        child.projectile_speed = clone_opt(&parent.projectile_speed);
    }
}

/// Inserts `st` into the key-sorted `v` at or after index `i`.
fn stance_upsert_rec(v: &Vec<RawStance>, i: usize, st: RawStance) -> (r: Vec<RawStance>)
    requires
        i <= v.len(),
    ensures
        r@.map_values(|s: RawStance| s@) == g_stance_upsert(
            v@.map_values(|s: RawStance| s@).subrange(i as int, v@.len() as int),
            st@,
        ),
    decreases v.len() - i,
{
    let ghost whole = v@.map_values(|s: RawStance| s@);
    let ghost tail = whole.subrange(i as int, v@.len() as int);
    if i >= v.len() {
        let mut r: Vec<RawStance> = Vec::new();
        let ghost gst = st@;
        r.push(st);
        proof {
            assert(tail.len() == 0);
            assert(r@.map_values(|s: RawStance| s@) =~= seq![gst]);
        }
        return r;
    }
    proof {
        assert(tail[0] == whole[i as int]);
        assert(tail.subrange(1, tail.len() as int) =~= whole.subrange(
            i as int + 1,
            v@.len() as int,
        ));
    }
    let cmp = crate::text::str_compare(st.state_key.as_str(), v[i].state_key.as_str());
    if cmp == 0 {
        // replace the entry at i, keep the rest
        let mut r: Vec<RawStance> = Vec::new();
        let ghost gst = st@;
        r.push(st);
        let mut k: usize = i + 1;
        while k < v.len()
            invariant
                i + 1 <= k <= v.len(),
                whole == v@.map_values(|s: RawStance| s@),
                whole.len() == v@.len(),
                r@.map_values(|s: RawStance| s@) =~= seq![gst] + whole.subrange(
                    i as int + 1,
                    k as int,
                ),
            decreases v.len() - k,
        {
            let ghost mb = r@.map_values(|s: RawStance| s@);
            r.push(RawStance { state_key: v[k].state_key.clone(), accuracy: v[k].accuracy.clone() });
            proof {
                assert(r@.map_values(|s: RawStance| s@) =~= mb.push(whole[k as int]));
                assert(seq![gst] + whole.subrange(i as int + 1, k as int + 1) =~= (seq![gst]
                    + whole.subrange(i as int + 1, k as int)).push(whole[k as int]));
            }
            k = k + 1;
        }
        proof {
            assert(r@.map_values(|s: RawStance| s@) =~= seq![gst] + tail.subrange(
                1,
                tail.len() as int,
            ));
        }
        r
    } else if cmp < 0 {
        // st sorts before the entry at i: prepend st to the tail
        let mut r: Vec<RawStance> = Vec::new();
        let ghost gst = st@;
        r.push(st);
        let mut k: usize = i;
        while k < v.len()
            invariant
                i <= k <= v.len(),
                whole == v@.map_values(|s: RawStance| s@),
                whole.len() == v@.len(),
                r@.map_values(|s: RawStance| s@) =~= seq![gst] + whole.subrange(i as int, k as int),
            decreases v.len() - k,
        {
            let ghost mb = r@.map_values(|s: RawStance| s@);
            r.push(RawStance { state_key: v[k].state_key.clone(), accuracy: v[k].accuracy.clone() });
            proof {
                assert(r@.map_values(|s: RawStance| s@) =~= mb.push(whole[k as int]));
                assert(seq![gst] + whole.subrange(i as int, k as int + 1) =~= (seq![gst]
                    + whole.subrange(i as int, k as int)).push(whole[k as int]));
            }
            k = k + 1;
        }
        proof {
            assert(r@.map_values(|s: RawStance| s@) =~= seq![gst] + tail);
        }
        r
    } else {
        let mut r = stance_upsert_rec(v, i + 1, st);
        let ghost m0 = r@.map_values(|s: RawStance| s@);
        r.insert(0, RawStance { state_key: v[i].state_key.clone(), accuracy: v[i].accuracy.clone() });
        proof {
            assert(r@.map_values(|s: RawStance| s@) =~= seq![whole[i as int]] + m0);
        }
        r
    }
}

/// Inserts each stance of `adds`, in order, into the key-sorted `base`.
pub fn stance_upsert_all(base: Vec<RawStance>, adds: Vec<RawStance>) -> (r: Vec<RawStance>)
    ensures
        r@.map_values(|s: RawStance| s@) == g_stance_upsert_all(
            base@.map_values(|s: RawStance| s@),
            adds@.map_values(|s: RawStance| s@),
        ),
{
    let ghost gadds = adds@.map_values(|s: RawStance| s@);
    let mut acc = base;
    let mut i: usize = 0;
    proof {
        assert(gadds.subrange(0, 0) =~= Seq::<GStance>::empty());
    }
    while i < adds.len()
        invariant
            i <= adds.len(),
            gadds == adds@.map_values(|s: RawStance| s@),
            gadds.len() == adds@.len(),
            acc@.map_values(|s: RawStance| s@) == g_stance_upsert_all(
                base@.map_values(|s: RawStance| s@),
                gadds.subrange(0, i as int),
            ),
        decreases adds.len() - i,
    {
        let ghost pre = gadds.subrange(0, i as int);
        let ghost post = gadds.subrange(0, i as int + 1);
        proof {
            assert(post.drop_last() =~= pre);
            assert(post.last() == gadds[i as int]);
        }
        let st = RawStance {
            state_key: adds[i].state_key.clone(),
            accuracy: adds[i].accuracy.clone(),
        };
        proof {
            assert(st@ == gadds[i as int]);
            assert(acc@.map_values(|s: RawStance| s@).subrange(0 as int, acc@.len() as int)
                =~= acc@.map_values(|s: RawStance| s@));
        }
        acc = stance_upsert_rec(&acc, 0, st);
        i = i + 1;
    }
    proof {
        assert(gadds.subrange(0, gadds.len() as int) =~= gadds);
    }
    acc
}

/// Merges the parent bag into the child bag; the child's values win, the
/// parent's fill what the child left absent, tags merge additively by
/// name, stances merge by key, chain variants append.
pub fn merge_attributes(parent: RawWeapon, child: RawWeapon) -> (r: RawWeapon)
    ensures
        r@ == g_merge_weapon(parent@, child@),
{
    let mut child = child;
    let ghost gp = parent@;
    let ghost gc = child@;
    merge_specification(&parent.specification, &mut child.specification);
    // substructures: inherit wholesale when absent, else field-by-field
    let hud_icon: Option<RawHudIcon> = match (parent.hud_icon, child.hud_icon) {
        (Some(pp), Some(cc)) => Some(
            RawHudIcon {
                filename: if cc.filename.is_some() {
                    cc.filename
                } else {
                    pp.filename
                },
            },
        ),
        (Some(pp), None) => Some(pp),
        (None, cc) => cc,
    };
    child.hud_icon = hud_icon;
    let inventory: Option<RawInventory> = match (parent.inventory, child.inventory) {
        (Some(pp), Some(cc)) => Some(
            RawInventory {
                encumbrance: if cc.encumbrance.is_some() {
                    cc.encumbrance
                } else {
                    pp.encumbrance
                },
                price: if cc.price.is_some() {
                    cc.price
                } else {
                    pp.price
                },
            },
        ),
        (Some(pp), None) => Some(pp),
        (None, cc) => cc,
    };
    child.inventory = inventory;
    let projectile: Option<RawProjectile> = match (parent.projectile, child.projectile) {
        (Some(pp), Some(cc)) => Some(
            RawProjectile {
                file: if cc.file.is_some() {
                    cc.file
                } else {
                    pp.file
                },
                result: match (pp.result, cc.result) {
                    (Some(pr), Some(cr)) => Some(
                        RawProjectileResult {
                            class: if cr.class.is_some() {
                                cr.class
                            } else {
                                pr.class
                            },
                            kill_probability: if cr.kill_probability.is_some() {
                                cr.kill_probability
                            } else {
                                pr.kill_probability
                            },
                            kill_decay_start_time: if cr.kill_decay_start_time.is_some() {
                                cr.kill_decay_start_time
                            } else {
                                pr.kill_decay_start_time
                            },
                            kill_decay_end_time: if cr.kill_decay_end_time.is_some() {
                                cr.kill_decay_end_time
                            } else {
                                pr.kill_decay_end_time
                            },
                        },
                    ),
                    (Some(pr), None) => Some(pr),
                    (None, cr) => cr,
                },
            },
        ),
        (Some(pp), None) => Some(pp),
        (None, cc) => cc,
    };
    child.projectile = projectile;
    // tags: keep the parent's entries whose names the child does not declare
    let mut kept: Vec<RawTag> = Vec::new();
    let mut i: usize = 0;
    let ghost ptags = gp.tags;
    proof {
        assert(ptags.subrange(0, 0) =~= Seq::<GTag>::empty());
        assert(kept@.map_values(|t: RawTag| t@) =~= Seq::<GTag>::empty());
        assert(ptags.len() == parent.tags@.len());
    }
    while i < parent.tags.len()
        invariant
            i <= parent.tags.len(),
            ptags == gp.tags,
            ptags =~= parent.tags@.map_values(|t: RawTag| t@),
            ptags.len() == parent.tags@.len(),
            gc.tags =~= child.tags@.map_values(|t: RawTag| t@),
            gc.tags.len() == child.tags@.len(),
            kept@.map_values(|t: RawTag| t@) == g_keep_tags(ptags.subrange(0, i as int), gc.tags),
        decreases parent.tags.len() - i,
    {
        let ghost pre = ptags.subrange(0, i as int);
        let ghost post = ptags.subrange(0, i as int + 1);
        proof {
            assert(post.drop_last() =~= pre);
            assert(post.last() == ptags[i as int]);
        }
        // does the child declare this tag name?
        let mut found = false;
        let mut j: usize = 0;
        while j < child.tags.len()
            invariant
                j <= child.tags.len(),
                gc.tags.len() == child.tags@.len(),
                gc.tags =~= child.tags@.map_values(|t: RawTag| t@),
                found ==> g_has_tag_name(gc.tags, ptags[i as int].name),
                !found ==> forall|m: int| 0 <= m < j ==> gc.tags[m].name != ptags[i as int].name,
                i < parent.tags@.len(),
                ptags =~= parent.tags@.map_values(|t: RawTag| t@),
                ptags.len() == parent.tags@.len(),
            decreases child.tags.len() - j,
        {
            let same = match (&child.tags[j].name, &parent.tags[i].name) {
                (Some(a), Some(b)) => crate::text::str_eq(a.as_str(), b.as_str()),
                (None, None) => true,
                _ => false,
            };
            if same {
                found = true;
                proof {
                    assert(gc.tags[j as int].name == ptags[i as int].name);
                }
                j = child.tags.len();
            } else {
                proof {
                    assert(gc.tags[j as int].name != ptags[i as int].name);
                }
                j = j + 1;
            }
        }
        if found {
            proof {
                assert(kept@.map_values(|t: RawTag| t@) == g_keep_tags(post, gc.tags));
            }
        } else {
            let ghost m0 = kept@.map_values(|t: RawTag| t@);
            proof {
                assert(!g_has_tag_name(gc.tags, ptags[i as int].name));
            }
            kept.push(RawTag { name: clone_opt(&parent.tags[i].name) });
            proof {
                assert(kept@.map_values(|t: RawTag| t@) =~= m0.push(ptags[i as int]));
            }
        }
        i = i + 1;
    }
    proof {
        assert(ptags.subrange(0, ptags.len() as int) =~= ptags);
    }
    let mut kept = kept;
    child.tags.append(&mut kept);
    proof {
        assert(child.tags@.map_values(|t: RawTag| t@) =~= gc.tags + g_keep_tags(ptags, gc.tags));
    }
    // chain variants: the parent's entries follow the child's
    let mut pchain = parent.chain_variants;
    child.chain_variants.append(&mut pchain);
    proof {
        assert(child.chain_variants@.map_values(|s: String| s@) =~= gc.chain_variants
            + gp.chain_variants);
    }
    // stances: keyed merge, parent first, child overriding, sorted by key
    let empty_seed: Vec<RawStance> = Vec::new();
    proof {
        assert(empty_seed@.map_values(|s: RawStance| s@) =~= Seq::<GStance>::empty());
    }
    let seeded = stance_upsert_all(empty_seed, parent.stances);
    let merged = stance_upsert_all(seeded, child.stances);
    child.stances = merged;
    proof {
        assert(child@ == g_merge_weapon(gp, gc));
    }
    child
}

/// Why a template chain could not be resolved.
pub enum ResolveError {
    /// Neither the relative path nor the base-package fallback exists.
    TemplateNotFound { direct: FsPath, fallback: Option<FsPath> },
    /// The chain revisits a template file.
    CircularReference { reference: String },
    /// The chain is longer than `MAX_TEMPLATE_DEPTH`.
    DepthExceeded,
    /// The template file's markup or entry structure does not parse.
    MalformedTemplate { path: FsPath },
    /// The template path has no parent directory to resolve against.
    NoParentDirectory { path: FsPath },
}

/// Ghost form of a resolution error.
pub enum GResolveError {
    NotFound { direct: Seq<Seq<char>>, fallback: Option<Seq<Seq<char>>> },
    Cycle { reference: Seq<char> },
    Depth,
    Malformed { path: Seq<Seq<char>> },
    NoParent { path: Seq<Seq<char>> },
}

impl View for ResolveError {
    type V = GResolveError;

    open spec fn view(&self) -> GResolveError {
        match self {
            ResolveError::TemplateNotFound { direct, fallback } => GResolveError::NotFound {
                direct: direct@,
                fallback: match fallback {
                    Some(f) => Some(f@),
                    None => None,
                },
            },
            ResolveError::CircularReference { reference } => GResolveError::Cycle {
                reference: reference@,
            },
            ResolveError::DepthExceeded => GResolveError::Depth,
            ResolveError::MalformedTemplate { path } => GResolveError::Malformed { path: path@ },
            ResolveError::NoParentDirectory { path } => GResolveError::NoParent { path: path@ },
        }
    }
}

/// The human-readable description of a resolution error.
pub open spec fn g_error_message(e: GResolveError) -> Seq<char> {
    match e {
        GResolveError::NotFound { direct, fallback } => match fallback {
            Some(f) => "Template not found: "@ + crate::fspath::abs_display(direct)
                + " (also tried: "@ + crate::fspath::abs_display(f) + ")"@,
            None => "Template not found: "@ + crate::fspath::abs_display(direct),
        },
        GResolveError::Cycle { reference } => "Circular reference detected: "@ + reference,
        GResolveError::Depth => "Template depth exceeded limit (>10)"@,
        GResolveError::Malformed { path } => "Template markup is malformed: "@
            + crate::fspath::abs_display(path),
        GResolveError::NoParent { path } => "Cannot get parent directory of template: "@
            + crate::fspath::abs_display(path),
    }
}

/// Appends the characters of `s` to `out`.
pub(crate) fn push_str_chars(out: &mut Vec<char>, s: &str)
    ensures
        final(out)@ == old(out)@ + s@,
{
    let chars = crate::text::str_chars(s);
    let mut i: usize = 0;
    while i < chars.len()
        invariant
            i <= chars.len(),
            chars@ == s@,
            out@ =~= old(out)@ + s@.subrange(0, i as int),
        decreases chars.len() - i,
    {
        out.push(chars[i]);
        i = i + 1;
    }
    proof {
        assert(out@ =~= old(out)@ + s@);
    }
}

impl ResolveError {
    /// Renders this error as its description.
    pub fn message(&self) -> (r: String)
        ensures
            r@ == g_error_message(self@),
    {
        let mut out: Vec<char> = Vec::new();
        match self {
            ResolveError::TemplateNotFound { direct, fallback } => {
                push_str_chars(&mut out, "Template not found: ");
                let d = direct.to_string_abs();
                push_str_chars(&mut out, d.as_str());
                match fallback {
                    Some(f) => {
                        push_str_chars(&mut out, " (also tried: ");
                        let fs = f.to_string_abs();
                        push_str_chars(&mut out, fs.as_str());
                        push_str_chars(&mut out, ")");
                    },
                    None => {},
                }
            },
            ResolveError::CircularReference { reference } => {
                push_str_chars(&mut out, "Circular reference detected: ");
                push_str_chars(&mut out, reference.as_str());
            },
            ResolveError::DepthExceeded => {
                push_str_chars(&mut out, "Template depth exceeded limit (>10)");
            },
            ResolveError::MalformedTemplate { path } => {
                push_str_chars(&mut out, "Template markup is malformed: ");
                let d = path.to_string_abs();
                push_str_chars(&mut out, d.as_str());
            },
            ResolveError::NoParentDirectory { path } => {
                push_str_chars(&mut out, "Cannot get parent directory of template: ");
                let d = path.to_string_abs();
                push_str_chars(&mut out, d.as_str());
            },
        }
        proof {
            assert(Seq::<char>::empty() + g_error_message(self@) =~= g_error_message(self@));
        }
        crate::text::chars_to_string(&out)
    }
}

/// The weapon bag stored in the snapshot at path `tp`, if that file
/// parses as a weapon definition.
pub open spec fn g_bag_at(t: Seq<crate::fstable::GFile>, tp: Seq<Seq<char>>) -> Option<GWeapon> {
    match crate::fstable::g_lookup(t, tp) {
        Some(content) => match crate::markup::sp_document(content) {
            Some(root) => g_weapon_of(root),
            None => None,
        },
        None => None,
    }
}

/// Resolution of the template chain declared by the reference `tref`
/// against the directory `base_dir`: locates the template (with the
/// base-package fallback), guards against cycles and excessive depth,
/// reads and parses it, resolves its own parent in turn, and folds each
/// parent into its child.
pub open spec fn g_resolve(
    t: Seq<crate::fstable::GFile>,
    base_dir: Seq<Seq<char>>,
    tref: Seq<char>,
    visited: Seq<Seq<Seq<char>>>,
) -> Result<GWeapon, GResolveError>
    decreases MAX_TEMPLATE_DEPTH + 2 - visited.len(),
{
    let tp = crate::fstable::g_template_path(t, base_dir, tref, "weapons"@);
    if visited.contains(tp) {
        Err(GResolveError::Cycle { reference: tref })
    } else if visited.len() + 1 > MAX_TEMPLATE_DEPTH {
        Err(GResolveError::Depth)
    } else {
        match crate::fstable::g_lookup(t, tp) {
            None => Err(
                GResolveError::NotFound {
                    direct: crate::fspath::joined_path(base_dir, tref),
                    fallback: match crate::fstable::g_fallback_dir(base_dir, "weapons"@) {
                        Some(fb) => Some(crate::fspath::joined_path(fb, tref)),
                        None => None,
                    },
                },
            ),
            Some(content) => match crate::markup::sp_document(content) {
                None => Err(GResolveError::Malformed { path: tp }),
                Some(root) => match g_weapon_of(root) {
                    None => Err(GResolveError::Malformed { path: tp }),
                    Some(bag) => match bag.template_file {
                        None => Ok(bag),
                        Some(pref) => {
                            if tp.len() == 0 {
                                Err(GResolveError::NoParent { path: tp })
                            } else {
                                match g_resolve(t, tp.drop_last(), pref, visited.push(tp)) {
                                    Ok(parent) => Ok(g_merge_weapon(parent, bag)),
                                    Err(e) => Err(e),
                                }
                            }
                        },
                    },
                },
            },
        }
    }
}

/// Resolves the template chain starting at `template_file` (relative to
/// `base_dir`) and returns the fully folded parent bag.
pub fn resolve_template(
    table: &crate::fstable::FileTable,
    base_dir: &FsPath,
    template_file: &str,
    visited: Vec<FsPath>,
) -> (r: Result<RawWeapon, ResolveError>)
    ensures
        match r {
            Ok(w) => g_resolve(
                table@,
                base_dir@,
                template_file@,
                visited@.map_values(|p: FsPath| p@),
            ) == Ok::<GWeapon, GResolveError>(w@),
            Err(e) => g_resolve(
                table@,
                base_dir@,
                template_file@,
                visited@.map_values(|p: FsPath| p@),
            ) == Err::<GWeapon, GResolveError>(e@),
        },
    decreases MAX_TEMPLATE_DEPTH + 2 - visited.len(),
{
    let ghost gvis = visited@.map_values(|p: FsPath| p@);
    let tp = crate::fstable::locate_template(table, base_dir, template_file, "weapons");
    // cycle check
    let mut seen = false;
    let mut i: usize = 0;
    while i < visited.len()
        invariant
            i <= visited.len(),
            gvis == visited@.map_values(|p: FsPath| p@),
            gvis.len() == visited@.len(),
            seen ==> gvis.contains(tp@),
            !seen ==> forall|j: int| 0 <= j < i ==> gvis[j] != tp@,
        decreases visited.len() - i,
    {
        if visited[i].eq_path(&tp) {
            seen = true;
            proof {
                assert(gvis[i as int] == tp@);
            }
            i = visited.len();
        } else {
            i = i + 1;
        }
    }
    if seen {
        return Err(ResolveError::CircularReference { reference: template_file.to_owned() });
    }
    proof {
        assert(!gvis.contains(tp@));
    }
    if visited.len() >= MAX_TEMPLATE_DEPTH {
        return Err(ResolveError::DepthExceeded);
    }
    let content = match table.lookup(&tp) {
        Some(c) => c,
        None => {
            let direct = base_dir.join_rel(template_file);
            let fallback = match base_dir.ancestor_up(2) {
                Some(packages_dir) => {
                    let fb = packages_dir.child("vanilla").child("weapons");
                    proof {
                        assert(crate::fstable::g_fallback_dir(base_dir@, "weapons"@) == Some(fb@));
                    }
                    Some(fb.join_rel(template_file))
                },
                None => None,
            };
            return Err(ResolveError::TemplateNotFound { direct, fallback });
        },
    };
    let root = match crate::markup::parse_document(content.as_str()) {
        Some(root) => root,
        None => {
            return Err(ResolveError::MalformedTemplate { path: tp });
        },
    };
    let bag = match weapon_from_elem(&root) {
        Some(bag) => bag,
        None => {
            return Err(ResolveError::MalformedTemplate { path: tp });
        },
    };
    let parent_ref = match &bag.template_file {
        Some(p) => p.clone(),
        None => {
            return Ok(bag);
        },
    };
    let parent_dir = match tp.parent() {
        Some(d) => d,
        None => {
            return Err(ResolveError::NoParentDirectory { path: tp });
        },
    };
    let ghost gtp = tp@;
    let mut visited = visited;
    visited.push(tp);
    proof {
        assert(visited@.map_values(|p: FsPath| p@) =~= gvis.push(gtp));
    }
    match resolve_template(table, &parent_dir, parent_ref.as_str(), visited) {
        Ok(parent) => Ok(merge_attributes(parent, bag)),
        Err(e) => Err(e),
    }
}

/// Reads one weapon bag from a parsed root element; `None` when a stance
/// entry lacks a required attribute.
pub fn weapon_from_elem(e: &XmlElem) -> (r: Option<RawWeapon>)
    ensures
        match r {
            Some(w) => g_weapon_of(gelem_of(*e)) == Some(w@),
            None => g_weapon_of(gelem_of(*e)) is None,
        },
{
    let stances = match stances_of(e) {
        Some(s) => s,
        None => {
            return None;
        },
    };
    let w = RawWeapon {
        key: elem_attr(e, "key"),
        template_file: elem_attr(e, "file"),
        tags: tags_of(e),
        specification: specification_of(e),
        hud_icon: hud_icon_of(e),
        inventory: inventory_of(e),
        projectile: projectile_of(e),
        modifiers: modifiers_of(e),
        chain_variants: chains_of(e),
        stances,
    };
    Some(w)
}

/// One per-stance accuracy value of the public record.
pub struct StanceAccuracy {
    pub stance: String,
    pub accuracy: String,
}

/// Ghost form of a stance accuracy value.
pub struct GStanceAccuracy {
    pub stance: Seq<char>,
    pub accuracy: Seq<char>,
}

impl View for StanceAccuracy {
    type V = GStanceAccuracy;

    open spec fn view(&self) -> GStanceAccuracy {
        GStanceAccuracy { stance: self.stance@, accuracy: self.accuracy@ }
    }
}

/// The public weapon record. Numeric attributes keep their attribute
/// text; absent required values default to `"0"`.
pub struct Weapon {
    pub id: String,
    pub key: Option<String>,
    pub name: String,
    pub tag: String,
    pub class: i32,
    pub hud_icon: Option<String>,
    pub magazine_size: String,
    pub kill_probability: String,
    pub retrigger_time: String,
    pub burst_shots: Option<String>,
    pub spread_range: Option<String>,
    pub sight_range_modifier: Option<String>,
    pub projectile_speed: Option<String>,
    pub barrel_offset: Option<String>,
    pub encumbrance: Option<String>,
    pub price: Option<String>,
    pub suppressed: bool,
    pub can_respawn_with: bool,
    pub in_stock: bool,
    pub chain_variants: Vec<String>,
    pub stance_accuracies: Vec<StanceAccuracy>,
    pub file_path: String,
    pub source_file: String,
    pub source_directory: String,
    pub package_name: String,
    pub template_error: Option<String>,
}

/// Ghost form of the public weapon record.
pub struct GWeaponRecord {
    pub id: Seq<char>,
    pub key: Option<Seq<char>>,
    pub name: Seq<char>,
    pub tag: Seq<char>,
    pub class: int,
    pub hud_icon: Option<Seq<char>>,
    pub magazine_size: Seq<char>,
    pub kill_probability: Seq<char>,
    pub retrigger_time: Seq<char>,
    pub burst_shots: Option<Seq<char>>,
    pub spread_range: Option<Seq<char>>,
    pub sight_range_modifier: Option<Seq<char>>,
    pub projectile_speed: Option<Seq<char>>,
    pub barrel_offset: Option<Seq<char>>,
    pub encumbrance: Option<Seq<char>>,
    pub price: Option<Seq<char>>,
    pub suppressed: bool,
    pub can_respawn_with: bool,
    pub in_stock: bool,
    pub chain_variants: Seq<Seq<char>>,
    pub stance_accuracies: Seq<GStanceAccuracy>,
    pub file_path: Seq<char>,
    pub source_file: Seq<char>,
    pub source_directory: Seq<char>,
    pub package_name: Seq<char>,
    pub template_error: Option<Seq<char>>,
}

impl View for Weapon {
    type V = GWeaponRecord;

    open spec fn view(&self) -> GWeaponRecord {
        GWeaponRecord {
            id: self.id@,
            key: opt_str(self.key),
            name: self.name@,
            tag: self.tag@,
            class: self.class as int,
            hud_icon: opt_str(self.hud_icon),
            magazine_size: self.magazine_size@,
            kill_probability: self.kill_probability@,
            retrigger_time: self.retrigger_time@,
            burst_shots: opt_str(self.burst_shots),
            spread_range: opt_str(self.spread_range),
            sight_range_modifier: opt_str(self.sight_range_modifier),
            projectile_speed: opt_str(self.projectile_speed),
            barrel_offset: opt_str(self.barrel_offset),
            encumbrance: opt_str(self.encumbrance),
            price: opt_str(self.price),
            suppressed: self.suppressed,
            can_respawn_with: self.can_respawn_with,
            in_stock: self.in_stock,
            chain_variants: self.chain_variants@.map_values(|s: String| s@),
            stance_accuracies: self.stance_accuracies@.map_values(|s: StanceAccuracy| s@),
            file_path: self.file_path@,
            source_file: self.source_file@,
            source_directory: self.source_directory@,
            package_name: self.package_name@,
            template_error: opt_str(self.template_error),
        }
    }
}

/// The single flag-text policy: the text denotes true exactly when it
/// reads as the integer one; anything unreadable counts as false.
pub open spec fn g_flag(s: Seq<char>) -> bool {
    crate::text::i32_of(s) == Some(1int)
}

/// Executable mirror of the flag policy.
pub fn flag_to_bool(s: &str) -> (r: bool)
    ensures
        r == g_flag(s@),
{
    let chars = crate::text::str_chars(s);
    match crate::text::parse_i32_chars(&chars) {
        Some(v) => v == 1,
        None => false,
    }
}

/// The first declared tag name, if any tag carries one.
pub open spec fn g_first_tag_name(tags: Seq<GTag>) -> Option<Seq<char>>
    decreases tags.len(),
{
    if tags.len() == 0 {
        None
    } else {
        match tags[0].name {
            Some(n) => Some(n),
            None => g_first_tag_name(tags.subrange(1, tags.len() as int)),
        }
    }
}

/// An optional text, or the empty text.
pub open spec fn g_or_empty(o: Option<Seq<char>>) -> Seq<char> {
    match o {
        Some(s) => s,
        None => Seq::empty(),
    }
}

/// An optional numeric text, or the default `"0"`.
pub open spec fn g_or_zero(o: Option<Seq<char>>) -> Seq<char> {
    match o {
        Some(s) => s,
        None => seq!['0'],
    }
}

/// The class number: the class text read as an integer, zero otherwise.
pub open spec fn g_class_val(o: Option<Seq<char>>) -> int {
    match o {
        Some(s) => match crate::text::i32_of(s) {
            Some(v) => v,
            None => 0,
        },
        None => 0,
    }
}

/// The record's logical key: the explicit key when present and
/// non-empty, else the file's stem.
pub open spec fn g_key_of(key: Option<Seq<char>>, wp: Seq<Seq<char>>) -> Option<Seq<char>> {
    match key {
        Some(k) => if k.len() > 0 {
            Some(k)
        } else if wp.len() > 0 {
            Some(crate::fspath::g_stem(wp.last()))
        } else {
            None
        },
        None => if wp.len() > 0 {
            Some(crate::fspath::g_stem(wp.last()))
        } else {
            None
        },
    }
}

/// The icon filename, dropped when empty.
pub open spec fn g_hud_out(o: Option<GHudIcon>) -> Option<Seq<char>> {
    match o {
        Some(h) => match h.filename {
            Some(f) => if f.len() > 0 {
                Some(f)
            } else {
                None
            },
            None => None,
        },
        None => None,
    }
}

/// The path of `wp` relative to `input`, joined with `/`; the whole path
/// when `input` does not lead it.
pub open spec fn g_rel_path(wp: Seq<Seq<char>>, input: Seq<Seq<char>>) -> Seq<char> {
    if crate::fspath::is_path_prefix(input, wp) {
        crate::fspath::joined(wp.subrange(input.len() as int, wp.len() as int), '/')
    } else {
        crate::fspath::joined(wp, '/')
    }
}

/// The package name: the path segment three levels up from the file
/// (above the kind directory), the root when the file sits two deep,
/// `unknown` otherwise.
pub open spec fn g_pkg_name(wp: Seq<Seq<char>>) -> Seq<char> {
    if wp.len() >= 3 {
        wp[wp.len() - 3]
    } else if wp.len() == 2 {
        "/"@
    } else {
        "unknown"@
    }
}

/// The kill probability text nested in the projectile's result.
pub open spec fn g_kill_probability(p: Option<GProjectile>) -> Option<Seq<char>> {
    match p {
        Some(pp) => match pp.result {
            Some(r) => r.kill_probability,
            None => None,
        },
        None => None,
    }
}

/// The resolution step of one file: the bag merged with its template
/// chain and no note on success, the raw bag with the failure's
/// description when the chain is broken, an error only when the file's
/// own directory cannot be derived.
pub open spec fn g_resolved_bag(
    t: Seq<crate::fstable::GFile>,
    wp: Seq<Seq<char>>,
    raw: GWeapon,
) -> Result<(GWeapon, Option<Seq<char>>), Seq<char>> {
    match raw.template_file {
        None => Ok((raw, None)),
        Some(tref) => if wp.len() == 0 {
            Err("Cannot get parent directory of weapon file"@)
        } else {
            match g_resolve(t, wp.drop_last(), tref, Seq::empty()) {
                Ok(parent) => Ok((g_merge_weapon(parent, raw), None)),
                Err(e) => Ok((raw, Some("Template resolution failed: "@ + g_error_message(e)))),
            }
        },
    }
}

/// The public record derived from a fully merged (or unresolved) bag.
pub open spec fn g_record_of(
    wp: Seq<Seq<char>>,
    input: Seq<Seq<char>>,
    id: Seq<char>,
    srcdir: Seq<char>,
    bag: GWeapon,
    terr: Option<Seq<char>>,
) -> GWeaponRecord {
    GWeaponRecord {
        id: id,
        key: g_key_of(bag.key, wp),
        name: g_or_empty(bag.specification.name),
        tag: g_or_empty(g_first_tag_name(bag.tags)),
        class: g_class_val(bag.specification.class),
        hud_icon: g_hud_out(bag.hud_icon),
        magazine_size: g_or_zero(bag.specification.magazine_size),
        kill_probability: g_or_zero(g_kill_probability(bag.projectile)),
        retrigger_time: g_or_zero(bag.specification.retrigger_time),
        burst_shots: None,
        spread_range: None,
        sight_range_modifier: None,
        projectile_speed: bag.specification.projectile_speed,
        barrel_offset: None,
        encumbrance: match bag.inventory {
            Some(i) => i.encumbrance,
            None => None,
        },
        price: match bag.inventory {
            Some(i) => i.price,
            None => None,
        },
        suppressed: match bag.specification.suppressed {
            Some(s) => g_flag(s),
            None => false,
        },
        can_respawn_with: true,
        in_stock: true,
        chain_variants: bag.chain_variants,
        stance_accuracies: bag.stances.map_values(
            |s: GStance| GStanceAccuracy { stance: s.state_key, accuracy: s.accuracy },
        ),
        file_path: g_rel_path(wp, input),
        source_file: crate::fspath::abs_display(wp),
        source_directory: srcdir,
        package_name: g_pkg_name(wp),
        template_error: terr,
    }
}

/// Processing of one discovered file: read from the snapshot, parsed,
/// resolved, and normalized. A missing or malformed file is an error; a
/// broken template chain still yields a record carrying the failure's
/// description.
pub open spec fn g_parse_weapon_file(
    t: Seq<crate::fstable::GFile>,
    wp: Seq<Seq<char>>,
    input: Seq<Seq<char>>,
    id: Seq<char>,
    srcdir: Seq<char>,
) -> Result<GWeaponRecord, Seq<char>> {
    match crate::fstable::g_lookup(t, wp) {
        None => Err("Failed to read file: "@ + crate::fspath::abs_display(wp)),
        Some(content) => match crate::markup::sp_document(content) {
            None => Err("XML parse error: "@ + crate::fspath::abs_display(wp)),
            Some(root) => match g_weapon_of(root) {
                None => Err("XML parse error: "@ + crate::fspath::abs_display(wp)),
                Some(raw) => match g_resolved_bag(t, wp, raw) {
                    Ok((bag, terr)) => Ok(g_record_of(wp, input, id, srcdir, bag, terr)),
                    Err(m) => Err(m),
                },
            },
        },
    }
}

/// Joins a literal prefix with a path display into one message.
pub(crate) fn path_message(prefix: &str, p: &FsPath) -> (r: String)
    ensures
        r@ == prefix@ + crate::fspath::abs_display(p@),
{
    let mut out: Vec<char> = Vec::new();
    push_str_chars(&mut out, prefix);
    let d = p.to_string_abs();
    push_str_chars(&mut out, d.as_str());
    proof {
        assert(Seq::<char>::empty() + prefix@ =~= prefix@);
    }
    crate::text::chars_to_string(&out)
}

/// Parses, resolves and normalizes one discovered definition file.
pub fn parse_weapon_file(
    table: &crate::fstable::FileTable,
    weapon_path: &FsPath,
    input_path: &FsPath,
    id: String,
    source_directory: &str,
) -> (r: Result<Weapon, String>)
    ensures
        match r {
            Ok(w) => g_parse_weapon_file(
                table@,
                weapon_path@,
                input_path@,
                id@,
                source_directory@,
            ) == Ok::<GWeaponRecord, Seq<char>>(w@),
            Err(m) => g_parse_weapon_file(
                table@,
                weapon_path@,
                input_path@,
                id@,
                source_directory@,
            ) == Err::<GWeaponRecord, Seq<char>>(m@),
        },
{
    let content = match table.lookup(weapon_path) {
        Some(c) => c,
        None => {
            return Err(path_message("Failed to read file: ", weapon_path));
        },
    };
    let root = match crate::markup::parse_document(content.as_str()) {
        Some(root) => root,
        None => {
            return Err(path_message("XML parse error: ", weapon_path));
        },
    };
    let raw = match weapon_from_elem(&root) {
        Some(raw) => raw,
        None => {
            return Err(path_message("XML parse error: ", weapon_path));
        },
    };
    let ghost graw = raw@;
    // resolve the template chain, if the bag declares one
    let mut template_error: Option<String> = None;
    let bag: RawWeapon;
    match &raw.template_file {
        Some(tref) => {
            let parent_dir = match weapon_path.parent() {
                Some(d) => d,
                None => {
                    return Err(
                        String::from_str("Cannot get parent directory of weapon file"),
                    );
                },
            };
            let tref = tref.clone();
            let fresh_visited: Vec<FsPath> = Vec::new();
            proof {
                assert(fresh_visited@.map_values(|p: FsPath| p@)
                    =~= Seq::<Seq<Seq<char>>>::empty());
            }
            match resolve_template(table, &parent_dir, tref.as_str(), fresh_visited) {
                Ok(parent) => {
                    bag = merge_attributes(parent, raw);
                },
                Err(e) => {
                    let mut out: Vec<char> = Vec::new();
                    push_str_chars(&mut out, "Template resolution failed: ");
                    let m = e.message();
                    push_str_chars(&mut out, m.as_str());
                    proof {
                        assert(Seq::<char>::empty() + "Template resolution failed: "@
                            =~= "Template resolution failed: "@);
                    }
                    template_error = Some(crate::text::chars_to_string(&out));
                    bag = raw;
                },
            }
        },
        None => {
            bag = raw;
        },
    }
    let ghost gbag = bag@;
    // derive the public record
    let key: Option<String> = match &bag.key {
        Some(k) => {
            if k.as_str().unicode_len() > 0 {
                Some(k.clone())
            } else {
                weapon_path.file_stem()
            }
        },
        None => weapon_path.file_stem(),
    };
    let tag: String = first_tag_name(&bag.tags);
    let class: i32 = match &bag.specification.class {
        Some(s) => {
            let chars = crate::text::str_chars(s.as_str());
            match crate::text::parse_i32_chars(&chars) {
                Some(v) => v,
                None => 0,
            }
        },
        None => 0,
    };
    let hud_icon: Option<String> = match &bag.hud_icon {
        Some(h) => match &h.filename {
            Some(f) => {
                if f.as_str().unicode_len() > 0 {
                    Some(f.clone())
                } else {
                    None
                }
            },
            None => None,
        },
        None => None,
    };
    let name: String = match &bag.specification.name {
        Some(s) => s.clone(),
        None => String::new(),
    };
    let retrigger_time = or_zero(&bag.specification.retrigger_time);
    let magazine_size = or_zero(&bag.specification.magazine_size);
    let projectile_speed = clone_opt(&bag.specification.projectile_speed);
    let encumbrance: Option<String> = match &bag.inventory {
        Some(i) => clone_opt(&i.encumbrance),
        None => None,
    };
    let price: Option<String> = match &bag.inventory {
        Some(i) => clone_opt(&i.price),
        None => None,
    };
    let kp_opt: Option<String> = match &bag.projectile {
        Some(p) => match &p.result {
            Some(rr) => clone_opt(&rr.kill_probability),
            None => None,
        },
        None => None,
    };
    let kill_probability = or_zero(&kp_opt);
    let suppressed: bool = match &bag.specification.suppressed {
        Some(s) => flag_to_bool(s.as_str()),
        None => false,
    };
    // stances become the public per-stance accuracy list
    let mut stance_accuracies: Vec<StanceAccuracy> = Vec::new();
    let mut i: usize = 0;
    proof {
        assert(stance_accuracies@.map_values(|s: StanceAccuracy| s@)
            =~= gbag.stances.subrange(0, 0).map_values(
            |s: GStance| GStanceAccuracy { stance: s.state_key, accuracy: s.accuracy },
        ));
    }
    while i < bag.stances.len()
        invariant
            i <= bag.stances.len(),
            gbag == bag@,
            gbag.stances.len() == bag.stances@.len(),
            stance_accuracies@.map_values(|s: StanceAccuracy| s@) =~= gbag.stances.subrange(
                0,
                i as int,
            ).map_values(|s: GStance| GStanceAccuracy { stance: s.state_key, accuracy: s.accuracy }),
        decreases bag.stances.len() - i,
    {
        stance_accuracies.push(
            StanceAccuracy {
                stance: bag.stances[i].state_key.clone(),
                accuracy: bag.stances[i].accuracy.clone(),
            },
        );
        proof {
            assert(gbag.stances.subrange(0, i as int + 1).map_values(
                |s: GStance| GStanceAccuracy { stance: s.state_key, accuracy: s.accuracy },
            ) =~= gbag.stances.subrange(0, i as int).map_values(
                |s: GStance| GStanceAccuracy { stance: s.state_key, accuracy: s.accuracy },
            ).push(GStanceAccuracy {
                stance: gbag.stances[i as int].state_key,
                accuracy: gbag.stances[i as int].accuracy,
            }));
        }
        i = i + 1;
    }
    proof {
        assert(gbag.stances.subrange(0, gbag.stances.len() as int) =~= gbag.stances);
    }
    // relative path, source path and package name
    let file_path: String = match weapon_path.strip_prefix(input_path) {
        Some(rest) => rest.to_string_rel(),
        None => weapon_path.to_string_rel(),
    };
    let source_file = weapon_path.to_string_abs();
    let package_name: String = if weapon_path.depth() >= 3 {
        bag_pkg_segment(weapon_path)
    } else if weapon_path.depth() == 2 {
        String::from_str("/")
    } else {
        String::from_str("unknown")
    };
    let w = Weapon {
        id,
        key,
        name,
        tag,
        class,
        hud_icon,
        magazine_size,
        kill_probability,
        retrigger_time,
        burst_shots: None,
        spread_range: None,
        sight_range_modifier: None,
        projectile_speed,
        barrel_offset: None,
        encumbrance,
        price,
        suppressed,
        can_respawn_with: true,
        in_stock: true,
        chain_variants: bag.chain_variants,
        stance_accuracies,
        file_path,
        source_file,
        source_directory: source_directory.to_owned(),
        package_name,
        template_error,
    };
    proof {
        assert(w@ == g_record_of(weapon_path@, input_path@, id@, source_directory@, gbag,
            opt_str(w.template_error)));
    }
    Ok(w)
}

/// One per-file failure reported by a scan.
pub struct ScanError {
    pub file: String,
    pub error: String,
    pub severity: String,
}

/// Ghost form of a scan failure.
pub struct GScanError {
    pub file: Seq<char>,
    pub error: Seq<char>,
    pub severity: Seq<char>,
}

impl View for ScanError {
    type V = GScanError;

    open spec fn view(&self) -> GScanError {
        GScanError { file: self.file@, error: self.error@, severity: self.severity@ }
    }
}

/// The aggregate result of one weapon scan.
pub struct WeaponScanResult {
    pub weapons: Vec<Weapon>,
    pub errors: Vec<ScanError>,
    pub duplicate_keys: Vec<String>,
    pub scan_time: u64,
}

/// Ghost form of the aggregate result.
pub struct GWeaponScanResult {
    pub weapons: Seq<GWeaponRecord>,
    pub errors: Seq<GScanError>,
    pub duplicate_keys: Seq<Seq<char>>,
    pub scan_time: u64,
}

impl View for WeaponScanResult {
    type V = GWeaponScanResult;

    open spec fn view(&self) -> GWeaponScanResult {
        GWeaponScanResult {
            weapons: self.weapons@.map_values(|w: Weapon| w@),
            errors: self.errors@.map_values(|e: ScanError| e@),
            duplicate_keys: self.duplicate_keys@.map_values(|s: String| s@),
            scan_time: self.scan_time,
        }
    }
}

/// The snapshot's paths under `root` whose extension is `ext`, in
/// snapshot order.
pub open spec fn g_discover(
    t: Seq<crate::fstable::GFile>,
    root: Seq<Seq<char>>,
    ext: Seq<char>,
) -> Seq<Seq<Seq<char>>>
    decreases t.len(),
{
    if t.len() == 0 {
        Seq::empty()
    } else {
        let r = g_discover(t.drop_last(), root, ext);
        let f = t.last();
        if crate::fspath::is_path_prefix(root, f.path) && f.path.len() > 0 && crate::fspath::g_ext(
            f.path.last(),
        ) == Some(ext) {
            r.push(f.path)
        } else {
            r
        }
    }
}

/// Finds every definition file of the weapon kind under `input_path`.
pub fn discover_weapons(table: &crate::fstable::FileTable, input_path: &FsPath) -> (r: Vec<FsPath>)
    ensures
        r@.map_values(|p: FsPath| p@) == g_discover(table@, input_path@, "weapon"@),
{
    let mut r: Vec<FsPath> = Vec::new();
    let mut i: usize = 0;
    let ghost gt = table@;
    proof {
        assert(gt.subrange(0, 0) =~= Seq::<crate::fstable::GFile>::empty());
        assert(r@.map_values(|p: FsPath| p@) =~= Seq::<Seq<Seq<char>>>::empty());
    }
    while i < table.files.len()
        invariant
            i <= table.files.len(),
            gt == table@,
            gt.len() == table.files@.len(),
            r@.map_values(|p: FsPath| p@) == g_discover(
                gt.subrange(0, i as int),
                input_path@,
                "weapon"@,
            ),
        decreases table.files.len() - i,
    {
        let ghost pre = gt.subrange(0, i as int);
        let ghost post = gt.subrange(0, i as int + 1);
        proof {
            assert(post.drop_last() =~= pre);
            assert(post.last() == gt[i as int]);
        }
        let entry = &table.files[i];
        if entry.path.starts_with(input_path) && entry.path.has_extension("weapon") {
            let ghost m0 = r@.map_values(|p: FsPath| p@);
            r.push(entry.path.duplicate());
            proof {
                assert(r@.map_values(|p: FsPath| p@) =~= m0.push(gt[i as int].path));
            }
        }
        i = i + 1;
    }
    proof {
        assert(gt.subrange(0, gt.len() as int) =~= gt);
    }
    r
}

/// The id given to the record of the file at `p`, discovered at `idx`.
pub open spec fn g_file_id(p: Seq<Seq<char>>, idx: nat) -> Seq<char> {
    crate::fspath::abs_display(p) + "_"@ + crate::text::dec_of(idx)
}

/// Renders the id of the file at `p` discovered at `idx`.
pub fn make_file_id(p: &FsPath, idx: usize) -> (r: String)
    ensures
        r@ == g_file_id(p@, idx as nat),
{
    let mut out: Vec<char> = Vec::new();
    let d = p.to_string_abs();
    push_str_chars(&mut out, d.as_str());
    push_str_chars(&mut out, "_");
    let digits = crate::text::dec_chars(idx as u64);
    let mut i: usize = 0;
    let ghost base = out@;
    while i < digits.len()
        invariant
            i <= digits.len(),
            out@ =~= base + digits@.subrange(0, i as int),
        decreases digits.len() - i,
    {
        out.push(digits[i]);
        i = i + 1;
    }
    proof {
        assert(digits@.subrange(0, digits@.len() as int) =~= digits@);
        assert(Seq::<char>::empty() + crate::fspath::abs_display(p@) =~= crate::fspath::abs_display(
            p@,
        ));
        assert(out@ =~= g_file_id(p@, idx as nat));
    }
    crate::text::chars_to_string(&out)
}

/// Processing of the discovered files in order: each file's record when
/// it parses, a scan error otherwise.
pub open spec fn g_scan_fold(
    t: Seq<crate::fstable::GFile>,
    input: Seq<Seq<char>>,
    srcdir: Seq<char>,
    files: Seq<Seq<Seq<char>>>,
) -> (Seq<GWeaponRecord>, Seq<GScanError>)
    decreases files.len(),
{
    if files.len() == 0 {
        (Seq::empty(), Seq::empty())
    } else {
        let (ws, es) = g_scan_fold(t, input, srcdir, files.drop_last());
        let f = files.last();
        let id = g_file_id(f, (files.len() - 1) as nat);
        match g_parse_weapon_file(t, f, input, id, srcdir) {
            Ok(w) => (ws.push(w), es),
            Err(m) => (
                ws,
                es.push(
                    GScanError {
                        file: crate::fspath::abs_display(f),
                        error: m,
                        severity: "error"@,
                    },
                ),
            ),
        }
    }
}

/// The keys of the emitted records, in order.
pub open spec fn g_rec_keys(ws: Seq<GWeaponRecord>) -> Seq<Option<Seq<char>>> {
    ws.map_values(|w: GWeaponRecord| w.key)
}

/// One whole weapon scan over the snapshot: discovery under the scan
/// path, per-file processing, and duplicate-key reporting. Fails only
/// when the scan path does not exist; an empty or fruitless directory
/// yields an empty result.
pub open spec fn g_scan_weapons(
    t: Seq<crate::fstable::GFile>,
    scan_path: Seq<Seq<char>>,
    scan_path_exists: bool,
    scan_time: u64,
) -> Result<GWeaponScanResult, Seq<char>> {
    if !scan_path_exists {
        Err("Directory not found: "@ + crate::fspath::abs_display(scan_path))
    } else {
        let files = g_discover(t, scan_path, "weapon"@);
        let (ws, es) = g_scan_fold(t, scan_path, crate::fspath::abs_display(scan_path), files);
        Ok(
            GWeaponScanResult {
                weapons: ws,
                errors: es,
                duplicate_keys: crate::dupkeys::g_dup_keys(g_rec_keys(ws)),
                scan_time,
            },
        )
    }
}

/// Scans every weapon definition under `scan_path`. The caller reports
/// whether the scan path exists on disk and how long the scan took; the
/// snapshot provides the files.
pub fn scan_weapons(
    table: &crate::fstable::FileTable,
    scan_path: &FsPath,
    scan_path_exists: bool,
    scan_time: u64,
) -> (r: Result<WeaponScanResult, String>)
    ensures
        match r {
            Ok(res) => g_scan_weapons(table@, scan_path@, scan_path_exists, scan_time) == Ok::<
                GWeaponScanResult,
                Seq<char>,
            >(res@),
            Err(m) => g_scan_weapons(table@, scan_path@, scan_path_exists, scan_time) == Err::<
                GWeaponScanResult,
                Seq<char>,
            >(m@),
        },
{
    if !scan_path_exists {
        return Err(path_message("Directory not found: ", scan_path));
    }
    let files = discover_weapons(table, scan_path);
    let source_directory = scan_path.to_string_abs();
    let ghost gfiles = files@.map_values(|p: FsPath| p@);
    let mut weapons: Vec<Weapon> = Vec::new();
    let mut errors: Vec<ScanError> = Vec::new();
    let mut i: usize = 0;
    proof {
        assert(gfiles.subrange(0, 0) =~= Seq::<Seq<Seq<char>>>::empty());
        assert(weapons@.map_values(|w: Weapon| w@) =~= Seq::<GWeaponRecord>::empty());
        assert(errors@.map_values(|e: ScanError| e@) =~= Seq::<GScanError>::empty());
    }
    while i < files.len()
        invariant
            i <= files.len(),
            gfiles == files@.map_values(|p: FsPath| p@),
            gfiles.len() == files@.len(),
            source_directory@ == crate::fspath::abs_display(scan_path@),
            (
                weapons@.map_values(|w: Weapon| w@),
                errors@.map_values(|e: ScanError| e@),
            ) == g_scan_fold(
                table@,
                scan_path@,
                crate::fspath::abs_display(scan_path@),
                gfiles.subrange(0, i as int),
            ),
        decreases files.len() - i,
    {
        let ghost pre = gfiles.subrange(0, i as int);
        let ghost post = gfiles.subrange(0, i as int + 1);
        proof {
            assert(post.drop_last() =~= pre);
            assert(post.last() == gfiles[i as int]);
        }
        let id = make_file_id(&files[i], i);
        match parse_weapon_file(table, &files[i], scan_path, id, source_directory.as_str()) {
            Ok(w) => {
                let ghost m0 = weapons@.map_values(|w: Weapon| w@);
                weapons.push(w);
                proof {
                    assert(weapons@.map_values(|w: Weapon| w@) =~= m0.push(
                        weapons@.last()@,
                    ));
                }
            },
            Err(m) => {
                let ghost m0 = errors@.map_values(|e: ScanError| e@);
                let file = files[i].to_string_abs();
                let severity = String::from_str("error");
                errors.push(ScanError { file, error: m, severity });
                proof {
                    assert(errors@.map_values(|e: ScanError| e@) =~= m0.push(
                        errors@.last()@,
                    ));
                }
            },
        }
        i = i + 1;
    }
    proof {
        assert(gfiles.subrange(0, gfiles.len() as int) =~= gfiles);
    }
    // collect the logical keys and report the duplicates
    let mut keys: Vec<Option<String>> = Vec::new();
    let mut j: usize = 0;
    let ghost gws = weapons@.map_values(|w: Weapon| w@);
    proof {
        assert(crate::dupkeys::keys_view(keys@) =~= g_rec_keys(gws).subrange(0, 0));
    }
    while j < weapons.len()
        invariant
            j <= weapons.len(),
            gws == weapons@.map_values(|w: Weapon| w@),
            gws.len() == weapons@.len(),
            crate::dupkeys::keys_view(keys@) =~= g_rec_keys(gws).subrange(0, j as int),
            keys@.len() == j,
        decreases weapons.len() - j,
    {
        keys.push(clone_opt(&weapons[j].key));
        proof {
            assert(crate::dupkeys::keys_view(keys@) =~= g_rec_keys(gws).subrange(
                0,
                j as int + 1,
            ));
        }
        j = j + 1;
    }
    proof {
        assert(g_rec_keys(gws).subrange(0, g_rec_keys(gws).len() as int) =~= g_rec_keys(gws));
        assert(crate::dupkeys::keys_view(keys@) == g_rec_keys(gws));
        assert(keys@.len() <= u64::MAX);
    }
    let duplicate_keys = crate::dupkeys::duplicate_keys_of(&keys);
    Ok(WeaponScanResult { weapons, errors, duplicate_keys, scan_time })
}

/// The verdict on a candidate game path for weapon scanning.
pub struct ValidationResult {
    pub valid: bool,
    pub weapons_path: String,
    pub package_count: usize,
    pub error_code: Option<String>,
    pub message: Option<String>,
}

/// Ghost form of the verdict.
pub struct GValidationResult {
    pub valid: bool,
    pub weapons_path: Seq<char>,
    pub package_count: int,
    pub error_code: Option<Seq<char>>,
    pub message: Option<Seq<char>>,
}

impl View for ValidationResult {
    type V = GValidationResult;

    open spec fn view(&self) -> GValidationResult {
        GValidationResult {
            valid: self.valid,
            weapons_path: self.weapons_path@,
            package_count: self.package_count as int,
            error_code: opt_str(self.error_code),
            message: opt_str(self.message),
        }
    }
}

/// The packages directory probed for a base path: the path itself when
/// it already ends in `packages`, else its `packages` child.
pub open spec fn g_packages_dir_for(path: Seq<Seq<char>>) -> Seq<Seq<char>> {
    if path.len() > 0 && path.last() == "packages"@ {
        path
    } else {
        path.push("packages"@)
    }
}

/// The verdict on a game path: the path must exist and its packages
/// directory must exist and be a directory; the count then reports the
/// packages found there.
pub open spec fn g_validate_game_path(
    path: Seq<Seq<char>>,
    path_exists: bool,
    packages_exists: bool,
    packages_is_dir: bool,
    package_count: int,
) -> GValidationResult {
    if !path_exists {
        GValidationResult {
            valid: false,
            weapons_path: Seq::empty(),
            package_count: 0,
            error_code: Some("PATH_NOT_EXISTS"@),
            message: Some("Path does not exist: "@ + crate::fspath::abs_display(path)),
        }
    } else if !packages_exists {
        GValidationResult {
            valid: false,
            weapons_path: Seq::empty(),
            package_count: 0,
            error_code: Some("PACKAGES_NOT_FOUND"@),
            message: Some(
                "packages directory not found. Expected: "@ + crate::fspath::abs_display(
                    g_packages_dir_for(path),
                ),
            ),
        }
    } else if !packages_is_dir {
        GValidationResult {
            valid: false,
            weapons_path: Seq::empty(),
            package_count: 0,
            error_code: Some("PACKAGES_NOT_DIRECTORY"@),
            message: Some(
                "packages path is not a directory: "@ + crate::fspath::abs_display(
                    g_packages_dir_for(path),
                ),
            ),
        }
    } else {
        GValidationResult {
            valid: true,
            weapons_path: crate::fspath::abs_display(g_packages_dir_for(path)),
            package_count: package_count,
            error_code: None,
            message: Some("Directory is valid"@),
        }
    }
}

/// The packages directory probed for a base path.
pub fn packages_dir_for(path: &FsPath) -> (r: FsPath)
    ensures
        r@ == g_packages_dir_for(path@),
{
    if path.ends_with_seg("packages") {
        path.duplicate()
    } else {
        path.child("packages")
    }
}

/// Validates a game path for scanning from the caller's probe outcomes.
pub fn validate_game_path(
    path: &FsPath,
    path_exists: bool,
    packages_exists: bool,
    packages_is_dir: bool,
    package_count: usize,
) -> (r: ValidationResult)
    ensures
        r@ == g_validate_game_path(
            path@,
            path_exists,
            packages_exists,
            packages_is_dir,
            package_count as int,
        ),
{
    if !path_exists {
        ValidationResult {
            valid: false,
            weapons_path: String::new(),
            package_count: 0,
            error_code: Some(String::from_str("PATH_NOT_EXISTS")),
            message: Some(path_message("Path does not exist: ", path)),
        }
    } else if !packages_exists {
        let pd = packages_dir_for(path);
        ValidationResult {
            valid: false,
            weapons_path: String::new(),
            package_count: 0,
            error_code: Some(String::from_str("PACKAGES_NOT_FOUND")),
            message: Some(path_message("packages directory not found. Expected: ", &pd)),
        }
    } else if !packages_is_dir {
        let pd = packages_dir_for(path);
        ValidationResult {
            valid: false,
            weapons_path: String::new(),
            package_count: 0,
            error_code: Some(String::from_str("PACKAGES_NOT_DIRECTORY")),
            message: Some(path_message("packages path is not a directory: ", &pd)),
        }
    } else {
        let pd = packages_dir_for(path);
        ValidationResult {
            valid: true,
            weapons_path: pd.to_string_abs(),
            package_count,
            error_code: None,
            message: Some(String::from_str("Directory is valid")),
        }
    }
}

/// The segment three levels up from the end of `p`.
fn bag_pkg_segment(p: &FsPath) -> (r: String)
    requires
        p@.len() >= 3,
    ensures
        r@ == p@[p@.len() - 3],
{
    p.segments[p.segments.len() - 3].clone()
}

/// The optional numeric text, or the default `"0"`.
fn or_zero(o: &Option<String>) -> (r: String)
    ensures
        r@ == g_or_zero(opt_str(*o)),
{
    match o {
        Some(s) => s.clone(),
        None => {
            let mut v: Vec<char> = Vec::new();
            v.push('0');
            proof {
                assert(v@ =~= seq!['0']);
            }
            crate::text::chars_to_string(&v)
        },
    }
}

/// The first declared tag name, or the empty string.
fn first_tag_name(tags: &Vec<RawTag>) -> (r: String)
    ensures
        r@ == g_or_empty(g_first_tag_name(tags@.map_values(|t: RawTag| t@))),
{
    let ghost all = tags@.map_values(|t: RawTag| t@);
    proof {
        assert(all.subrange(0, all.len() as int) =~= all);
    }
    let mut i: usize = 0;
    while i < tags.len()
        invariant
            i <= tags.len(),
            all == tags@.map_values(|t: RawTag| t@),
            all.len() == tags@.len(),
            g_first_tag_name(all) == g_first_tag_name(all.subrange(i as int, all.len() as int)),
        decreases tags.len() - i,
    {
        let ghost rest = all.subrange(i as int, all.len() as int);
        proof {
            assert(rest[0] == all[i as int]);
            assert(rest.subrange(1, rest.len() as int) =~= all.subrange(
                i as int + 1,
                all.len() as int,
            ));
        }
        match &tags[i].name {
            Some(n) => {
                return n.clone();
            },
            None => {},
        }
        i = i + 1;
    }
    proof {
        assert(all.subrange(i as int, all.len() as int).len() == 0);
    }
    String::new()
}

} // verus!
