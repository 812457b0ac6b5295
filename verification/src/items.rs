//! Item definition scanning: carry and visual item attribute bags,
//! multi-entry template resolution with selector-based entry choice, and
//! scan aggregation in both collecting and streaming form.

use vstd::prelude::*;

use crate::fspath::FsPath;
use crate::markup::GElem;
use crate::markup::XmlElem;
use crate::markup::gelem_of;
use crate::markup::gelems_of;
use crate::weapons::GHudIcon;
use crate::weapons::GInventory;
use crate::weapons::RawHudIcon;
use crate::weapons::RawInventory;
use crate::weapons::clone_opt;
use crate::weapons::elem_attr;
use crate::weapons::first_child_named;
use crate::weapons::g_attr;
use crate::weapons::g_first_named;
use crate::weapons::g_merge_hud;
use crate::weapons::g_merge_inventory;
use crate::weapons::g_scalar;
use crate::weapons::g_rel_path;
use crate::weapons::lemma_gelems_push;
use crate::weapons::opt_str;
use crate::weapons::path_message;
use crate::weapons::push_str_chars;

verus! {

/// How many files each streamed batch covers.
pub const BATCH_SIZE: usize = 50;

/// A `capacity` entry of a carry item.
pub struct RawCapacity {
    pub value: Option<String>,
    pub source: Option<String>,
    pub source_value: Option<String>,
}

/// Ghost form of a capacity entry.
pub struct GCapacity {
    pub value: Option<Seq<char>>,
    pub source: Option<Seq<char>>,
    pub source_value: Option<Seq<char>>,
}

impl View for RawCapacity {
    type V = GCapacity;

    open spec fn view(&self) -> GCapacity {
        GCapacity {
            value: opt_str(self.value),
            source: opt_str(self.source),
            source_value: opt_str(self.source_value),
        }
    }
}

/// The `commonness` element of a carry item.
pub struct RawCommonness {
    pub value: Option<String>,
    pub in_stock: Option<String>,
    pub can_respawn_with: Option<String>,
}

/// Ghost form of the commonness block.
pub struct GCommonness {
    pub value: Option<Seq<char>>,
    pub in_stock: Option<Seq<char>>,
    pub can_respawn_with: Option<Seq<char>>,
}

impl View for RawCommonness {
    type V = GCommonness;

    open spec fn view(&self) -> GCommonness {
        GCommonness {
            value: opt_str(self.value),
            in_stock: opt_str(self.in_stock),
            can_respawn_with: opt_str(self.can_respawn_with),
        }
    }
}

/// A `modifier` entry of a carry item.
pub struct RawItemModifier {
    pub class: Option<String>,
    pub value: Option<String>,
    pub input_character_state: Option<String>,
    pub output_character_state: Option<String>,
    pub consumes_item: Option<String>,
}

/// Ghost form of a carry-item modifier.
pub struct GItemModifier {
    pub class: Option<Seq<char>>,
    pub value: Option<Seq<char>>,
    pub input_character_state: Option<Seq<char>>,
    pub output_character_state: Option<Seq<char>>,
    pub consumes_item: Option<Seq<char>>,
}

impl View for RawItemModifier {
    type V = GItemModifier;

    open spec fn view(&self) -> GItemModifier {
        GItemModifier {
            class: opt_str(self.class),
            value: opt_str(self.value),
            input_character_state: opt_str(self.input_character_state),
            output_character_state: opt_str(self.output_character_state),
            consumes_item: opt_str(self.consumes_item),
        }
    }
}

/// The `model` element of a carry item.
pub struct RawModel {
    pub mesh_filename: Option<String>,
}

/// Ghost form of the model block.
pub struct GModel {
    pub mesh_filename: Option<Seq<char>>,
}

impl View for RawModel {
    type V = GModel;

    open spec fn view(&self) -> GModel {
        GModel { mesh_filename: opt_str(self.mesh_filename) }
    }
}

/// One carry-item entry as read from a file, before template resolution.
pub struct RawCarryItem {
    pub key: Option<String>,
    pub template_file: Option<String>,
    pub name: Option<String>,
    pub slot: Option<String>,
    pub transform_on_consume: Option<String>,
    pub time_to_live: Option<String>,
    pub draggable: Option<String>,
    pub hud_icon: Option<RawHudIcon>,
    pub capacities: Vec<RawCapacity>,
    pub inventory: Option<RawInventory>,
    pub commonness: Option<RawCommonness>,
    pub modifiers: Vec<RawItemModifier>,
    pub model: Option<RawModel>,
}

/// Ghost form of a carry-item bag.
pub struct GCarryItem {
    pub key: Option<Seq<char>>,
    pub template_file: Option<Seq<char>>,
    pub name: Option<Seq<char>>,
    pub slot: Option<Seq<char>>,
    pub transform_on_consume: Option<Seq<char>>,
    pub time_to_live: Option<Seq<char>>,
    pub draggable: Option<Seq<char>>,
    pub hud_icon: Option<GHudIcon>,
    pub capacities: Seq<GCapacity>,
    pub inventory: Option<GInventory>,
    pub commonness: Option<GCommonness>,
    pub modifiers: Seq<GItemModifier>,
    pub model: Option<GModel>,
}

impl View for RawCarryItem {
    type V = GCarryItem;

    open spec fn view(&self) -> GCarryItem {
        GCarryItem {
            key: opt_str(self.key),
            template_file: opt_str(self.template_file),
            name: opt_str(self.name),
            slot: opt_str(self.slot),
            transform_on_consume: opt_str(self.transform_on_consume),
            time_to_live: opt_str(self.time_to_live),
            draggable: opt_str(self.draggable),
            hud_icon: match self.hud_icon {
                Some(h) => Some(h@),
                None => None,
            },
            capacities: self.capacities@.map_values(|c: RawCapacity| c@),
            inventory: match self.inventory {
                Some(i) => Some(i@),
                None => None,
            },
            commonness: match self.commonness {
                Some(c) => Some(c@),
                None => None,
            },
            modifiers: self.modifiers@.map_values(|m: RawItemModifier| m@),
            model: match self.model {
                Some(m) => Some(m@),
                None => None,
            },
        }
    }
}

/// A `model` entry of a visual item.
pub struct RawVisualModel {
    pub mesh_filename: Option<String>,
}

/// Ghost form of a visual-item model entry.
pub struct GVisualModel {
    pub mesh_filename: Option<Seq<char>>,
}

impl View for RawVisualModel {
    type V = GVisualModel;

    open spec fn view(&self) -> GVisualModel {
        GVisualModel { mesh_filename: opt_str(self.mesh_filename) }
    }
}

/// The `effect` element of a visual item.
pub struct RawEffect {
    pub effect_ref: Option<String>,
}

/// Ghost form of the effect reference.
pub struct GEffect {
    pub effect_ref: Option<Seq<char>>,
}

impl View for RawEffect {
    type V = GEffect;

    open spec fn view(&self) -> GEffect {
        GEffect { effect_ref: opt_str(self.effect_ref) }
    }
}

/// One visual-item definition as read from a file.
pub struct RawVisualItem {
    pub key: Option<String>,
    pub template_file: Option<String>,
    pub models: Vec<RawVisualModel>,
    pub effect: Option<RawEffect>,
}

/// Ghost form of a visual-item bag.
pub struct GVisualItem {
    pub key: Option<Seq<char>>,
    pub template_file: Option<Seq<char>>,
    pub models: Seq<GVisualModel>,
    pub effect: Option<GEffect>,
}

impl View for RawVisualItem {
    type V = GVisualItem;

    open spec fn view(&self) -> GVisualItem {
        GVisualItem {
            key: opt_str(self.key),
            template_file: opt_str(self.template_file),
            models: self.models@.map_values(|m: RawVisualModel| m@),
            effect: match self.effect {
                Some(e) => Some(e@),
                None => None,
            },
        }
    }
}

/// The carry-item entries among `ch`, in order.
pub open spec fn g_carry_entries(ch: Seq<GElem>) -> Seq<GCarryItem>
    decreases ch.len(),
{
    if ch.len() == 0 {
        Seq::empty()
    } else {
        let r = g_carry_entries(ch.drop_last());
        if ch.last().name == "carry_item"@ {
            r.push(g_carry_of(ch.last()))
        } else {
            r
        }
    }
}

/// The capacity entries among `ch`, in order.
pub open spec fn g_capacities(ch: Seq<GElem>) -> Seq<GCapacity>
    decreases ch.len(),
{
    if ch.len() == 0 {
        Seq::empty()
    } else {
        let r = g_capacities(ch.drop_last());
        if ch.last().name == "capacity"@ {
            r.push(
                GCapacity {
                    value: g_attr(ch.last().attrs, "value"@),
                    source: g_attr(ch.last().attrs, "source"@),
                    source_value: g_attr(ch.last().attrs, "sourceValue"@),
                },
            )
        } else {
            r
        }
    }
}

/// The modifier entries among `ch`, in order.
pub open spec fn g_item_mods(ch: Seq<GElem>) -> Seq<GItemModifier>
    decreases ch.len(),
{
    if ch.len() == 0 {
        Seq::empty()
    } else {
        let r = g_item_mods(ch.drop_last());
        if ch.last().name == "modifier"@ {
            r.push(
                GItemModifier {
                    class: g_attr(ch.last().attrs, "class"@),
                    value: g_attr(ch.last().attrs, "value"@),
                    input_character_state: g_attr(ch.last().attrs, "input_character_state"@),
                    output_character_state: g_attr(ch.last().attrs, "output_character_state"@),
                    consumes_item: g_attr(ch.last().attrs, "consumes_item"@),
                },
            )
        } else {
            r
        }
    }
}

/// The visual-model entries among `ch`, in order.
pub open spec fn g_visual_models(ch: Seq<GElem>) -> Seq<GVisualModel>
    decreases ch.len(),
{
    if ch.len() == 0 {
        Seq::empty()
    } else {
        let r = g_visual_models(ch.drop_last());
        if ch.last().name == "model"@ {
            r.push(GVisualModel { mesh_filename: g_attr(ch.last().attrs, "mesh_filename"@) })
        } else {
            r
        }
    }
}

/// The carry-item bag described by one `carry_item` element.
pub open spec fn g_carry_of(e: GElem) -> GCarryItem {
    GCarryItem {
        key: g_attr(e.attrs, "key"@),
        template_file: g_attr(e.attrs, "file"@),
        name: g_attr(e.attrs, "name"@),
        slot: g_attr(e.attrs, "slot"@),
        transform_on_consume: g_attr(e.attrs, "transform_on_consume"@),
        time_to_live: g_attr(e.attrs, "time_to_live_out_in_the_open"@),
        draggable: g_attr(e.attrs, "draggable"@),
        hud_icon: crate::weapons::g_hud_of(e.children),
        capacities: g_capacities(e.children),
        inventory: crate::weapons::g_inv_of(e.children),
        commonness: match g_first_named(e.children, "commonness"@) {
            Some(el) => Some(
                GCommonness {
                    value: g_attr(el.attrs, "value"@),
                    in_stock: g_attr(el.attrs, "in_stock"@),
                    can_respawn_with: g_attr(el.attrs, "can_respawn_with"@),
                },
            ),
            None => None,
        },
        modifiers: g_item_mods(e.children),
        model: match g_first_named(e.children, "model"@) {
            Some(el) => Some(GModel { mesh_filename: g_attr(el.attrs, "mesh_filename"@) }),
            None => None,
        },
    }
}

/// The visual-item bag described by the root element.
pub open spec fn g_visual_of(e: GElem) -> GVisualItem {
    GVisualItem {
        key: g_attr(e.attrs, "key"@),
        template_file: g_attr(e.attrs, "file"@),
        models: g_visual_models(e.children),
        effect: match g_first_named(e.children, "effect"@) {
            Some(el) => Some(GEffect { effect_ref: g_attr(el.attrs, "ref"@) }),
            None => None,
        },
    }
}

/// Reads one carry-item bag from a `carry_item` element.
pub fn carry_from_elem(e: &XmlElem) -> (r: RawCarryItem)
    ensures
        r@ == g_carry_of(gelem_of(*e)),
{
    let mut capacities: Vec<RawCapacity> = Vec::new();
    let mut i: usize = 0;
    proof {
        assert(e.children@.subrange(0, 0) =~= Seq::<XmlElem>::empty());
        assert(capacities@.map_values(|c: RawCapacity| c@) =~= Seq::<GCapacity>::empty());
    }
    while i < e.children.len()
        invariant
            i <= e.children.len(),
            capacities@.map_values(|c: RawCapacity| c@) == g_capacities(
                gelems_of(e.children@.subrange(0, i as int)),
            ),
        decreases e.children.len() - i,
    {
        let ghost pre = e.children@.subrange(0, i as int);
        let ghost post = e.children@.subrange(0, i as int + 1);
        proof {
            assert(post =~= pre.push(e.children@[i as int]));
            lemma_gelems_push(pre, e.children@[i as int]);
        }
        let c = &e.children[i];
        if crate::text::str_eq(c.name.as_str(), "capacity") {
            let ghost m0 = capacities@.map_values(|c: RawCapacity| c@);
            capacities.push(
                RawCapacity {
                    value: elem_attr(c, "value"),
                    source: elem_attr(c, "source"),
                    source_value: elem_attr(c, "sourceValue"),
                },
            );
            proof {
                assert(capacities@.map_values(|c: RawCapacity| c@) =~= m0.push(
                    GCapacity {
                        value: g_attr(gelem_of(*c).attrs, "value"@),
                        source: g_attr(gelem_of(*c).attrs, "source"@),
                        source_value: g_attr(gelem_of(*c).attrs, "sourceValue"@),
                    },
                ));
                assert(gelems_of(post).drop_last() =~= gelems_of(pre));
            }
        } else {
            proof {
                assert(gelems_of(post).drop_last() =~= gelems_of(pre));
            }
        }
        i = i + 1;
    }
    let mut modifiers: Vec<RawItemModifier> = Vec::new();
    let mut i2: usize = 0;
    proof {
        assert(e.children@.subrange(0, 0) =~= Seq::<XmlElem>::empty());
        assert(modifiers@.map_values(|m: RawItemModifier| m@) =~= Seq::<GItemModifier>::empty());
    }
    while i2 < e.children.len()
        invariant
            i2 <= e.children.len(),
            modifiers@.map_values(|m: RawItemModifier| m@) == g_item_mods(
                gelems_of(e.children@.subrange(0, i2 as int)),
            ),
        decreases e.children.len() - i2,
    {
        let ghost pre = e.children@.subrange(0, i2 as int);
        let ghost post = e.children@.subrange(0, i2 as int + 1);
        proof {
            assert(post =~= pre.push(e.children@[i2 as int]));
            lemma_gelems_push(pre, e.children@[i2 as int]);
        }
        let c = &e.children[i2];
        if crate::text::str_eq(c.name.as_str(), "modifier") {
            let ghost m0 = modifiers@.map_values(|m: RawItemModifier| m@);
            modifiers.push(
                RawItemModifier {
                    class: elem_attr(c, "class"),
                    value: elem_attr(c, "value"),
                    input_character_state: elem_attr(c, "input_character_state"),
                    output_character_state: elem_attr(c, "output_character_state"),
                    consumes_item: elem_attr(c, "consumes_item"),
                },
            );
            proof {
                assert(modifiers@.map_values(|m: RawItemModifier| m@) =~= m0.push(
                    GItemModifier {
                        class: g_attr(gelem_of(*c).attrs, "class"@),
                        value: g_attr(gelem_of(*c).attrs, "value"@),
                        input_character_state: g_attr(
                            gelem_of(*c).attrs,
                            "input_character_state"@,
                        ),
                        output_character_state: g_attr(
                            gelem_of(*c).attrs,
                            "output_character_state"@,
                        ),
                        consumes_item: g_attr(gelem_of(*c).attrs, "consumes_item"@),
                    },
                ));
                assert(gelems_of(post).drop_last() =~= gelems_of(pre));
            }
        } else {
            proof {
                assert(gelems_of(post).drop_last() =~= gelems_of(pre));
            }
        }
        i2 = i2 + 1;
    }
    let commonness = match first_child_named(e, "commonness") {
        Some(el) => Some(
            RawCommonness {
                value: elem_attr(el, "value"),
                in_stock: elem_attr(el, "in_stock"),
                can_respawn_with: elem_attr(el, "can_respawn_with"),
            },
        ),
        None => None,
    };
    let model = match first_child_named(e, "model") {
        Some(el) => Some(RawModel { mesh_filename: elem_attr(el, "mesh_filename") }),
        None => None,
    };
    proof {
        assert(e.children@.subrange(0, e.children@.len() as int) =~= e.children@);
    }
    RawCarryItem {
        key: elem_attr(e, "key"),
        template_file: elem_attr(e, "file"),
        name: elem_attr(e, "name"),
        slot: elem_attr(e, "slot"),
        transform_on_consume: elem_attr(e, "transform_on_consume"),
        time_to_live: elem_attr(e, "time_to_live_out_in_the_open"),
        draggable: elem_attr(e, "draggable"),
        hud_icon: crate::weapons::hud_icon_of(e),
        capacities,
        inventory: crate::weapons::inventory_of(e),
        commonness,
        modifiers,
        model,
    }
}

/// Reads the carry-item entries of a parsed root element.
pub fn carry_entries_of(e: &XmlElem) -> (r: Vec<RawCarryItem>)
    ensures
        r@.map_values(|c: RawCarryItem| c@) == g_carry_entries(gelem_of(*e).children),
{
    let mut r: Vec<RawCarryItem> = Vec::new();
    let mut i: usize = 0;
    proof {
        assert(e.children@.subrange(0, 0) =~= Seq::<XmlElem>::empty());
        assert(r@.map_values(|c: RawCarryItem| c@) =~= Seq::<GCarryItem>::empty());
    }
    while i < e.children.len()
        invariant
            i <= e.children.len(),
            r@.map_values(|c: RawCarryItem| c@) == g_carry_entries(
                gelems_of(e.children@.subrange(0, i as int)),
            ),
        decreases e.children.len() - i,
    {
        let ghost pre = e.children@.subrange(0, i as int);
        let ghost post = e.children@.subrange(0, i as int + 1);
        proof {
            assert(post =~= pre.push(e.children@[i as int]));
            lemma_gelems_push(pre, e.children@[i as int]);
        }
        let c = &e.children[i];
        if crate::text::str_eq(c.name.as_str(), "carry_item") {
            let ghost m0 = r@.map_values(|c: RawCarryItem| c@);
            let entry = carry_from_elem(c);
            r.push(entry);
            proof {
                assert(r@.map_values(|c: RawCarryItem| c@) =~= m0.push(g_carry_of(gelem_of(*c))));
                assert(gelems_of(post).drop_last() =~= gelems_of(pre));
            }
        } else {
            proof {
                assert(gelems_of(post).drop_last() =~= gelems_of(pre));
            }
        }
        i = i + 1;
    }
    proof {
        assert(e.children@.subrange(0, e.children@.len() as int) =~= e.children@);
    }
    r
}

/// Reads one visual-item bag from a parsed root element.
pub fn visual_from_elem(e: &XmlElem) -> (r: RawVisualItem)
    ensures
        r@ == g_visual_of(gelem_of(*e)),
{
    let mut models: Vec<RawVisualModel> = Vec::new();
    let mut i: usize = 0;
    proof {
        assert(e.children@.subrange(0, 0) =~= Seq::<XmlElem>::empty());
        assert(models@.map_values(|m: RawVisualModel| m@) =~= Seq::<GVisualModel>::empty());
    }
    while i < e.children.len()
        invariant
            i <= e.children.len(),
            models@.map_values(|m: RawVisualModel| m@) == g_visual_models(
                gelems_of(e.children@.subrange(0, i as int)),
            ),
        decreases e.children.len() - i,
    {
        let ghost pre = e.children@.subrange(0, i as int);
        let ghost post = e.children@.subrange(0, i as int + 1);
        proof {
            assert(post =~= pre.push(e.children@[i as int]));
            lemma_gelems_push(pre, e.children@[i as int]);
        }
        let c = &e.children[i];
        if crate::text::str_eq(c.name.as_str(), "model") {
            let ghost m0 = models@.map_values(|m: RawVisualModel| m@);
            models.push(RawVisualModel { mesh_filename: elem_attr(c, "mesh_filename") });
            proof {
                assert(models@.map_values(|m: RawVisualModel| m@) =~= m0.push(
                    GVisualModel { mesh_filename: g_attr(gelem_of(*c).attrs, "mesh_filename"@) },
                ));
                assert(gelems_of(post).drop_last() =~= gelems_of(pre));
            }
        } else {
            proof {
                assert(gelems_of(post).drop_last() =~= gelems_of(pre));
            }
        }
        i = i + 1;
    }
    let effect = match first_child_named(e, "effect") {
        Some(el) => Some(RawEffect { effect_ref: elem_attr(el, "ref") }),
        None => None,
    };
    proof {
        assert(e.children@.subrange(0, e.children@.len() as int) =~= e.children@);
    }
    RawVisualItem {
        key: elem_attr(e, "key"),
        template_file: elem_attr(e, "file"),
        models,
        effect,
    }
}

/// Whether any capacity entry of `cs` declares the source `k` (an
/// absent source counts as a key of its own).
pub open spec fn g_caps_named(cs: Seq<GCapacity>, k: Option<Seq<char>>) -> bool {
    exists|i: int| 0 <= i < cs.len() && cs[i].source == k
}

/// The parent capacity entries whose source the child does not name, in
/// parent order.
pub open spec fn g_caps_unnamed(p: Seq<GCapacity>, c: Seq<GCapacity>) -> Seq<GCapacity>
    decreases p.len(),
{
    if p.len() == 0 {
        Seq::empty()
    } else {
        let r = g_caps_unnamed(p.drop_last(), c);
        if g_caps_named(c, p.last().source) {
            r
        } else {
            r.push(p.last())
        }
    }
}

/// Additive merge of the capacity lists, keyed by the capacity source:
/// the child's entries keep precedence and come first; the parent's
/// entries follow for exactly the sources the child does not name.
pub open spec fn g_merge_caps(p: Seq<GCapacity>, c: Seq<GCapacity>) -> Seq<GCapacity> {
    c + g_caps_unnamed(p, c)
}

/// Whether any modifier entry of `ms` declares the class `k` (an absent
/// class counts as a key of its own).
pub open spec fn g_mods_named(ms: Seq<GItemModifier>, k: Option<Seq<char>>) -> bool {
    exists|i: int| 0 <= i < ms.len() && ms[i].class == k
}

/// The parent modifier entries whose class the child does not name, in
/// parent order.
pub open spec fn g_mods_unnamed(p: Seq<GItemModifier>, c: Seq<GItemModifier>) -> Seq<
    GItemModifier,
>
    decreases p.len(),
{
    if p.len() == 0 {
        Seq::empty()
    } else {
        let r = g_mods_unnamed(p.drop_last(), c);
        if g_mods_named(c, p.last().class) {
            r
        } else {
            r.push(p.last())
        }
    }
}

/// Additive merge of the modifier lists, keyed by the modifier class:
/// the child's entries keep precedence and come first; the parent's
/// entries follow for exactly the classes the child does not name.
pub open spec fn g_merge_mods(p: Seq<GItemModifier>, c: Seq<GItemModifier>) -> Seq<GItemModifier> {
    c + g_mods_unnamed(p, c)
}

/// Additive-merge law for the capacity list: the merged list opens with
/// the child's entries, unchanged and in order, and a parent entry
/// survives into the remainder exactly when the child names no entry
/// with its source.
pub proof fn lemma_caps_merge(p: Seq<GCapacity>, c: Seq<GCapacity>, e: GCapacity)
    ensures
        g_merge_caps(p, c).len() == c.len() + g_caps_unnamed(p, c).len(),
        forall|i: int| 0 <= i < c.len() ==> g_merge_caps(p, c)[i] == c[i],
        g_caps_unnamed(p, c).contains(e) <==> (p.contains(e) && !g_caps_named(c, e.source)),
    decreases p.len(),
{
    if p.len() > 0 {
        lemma_caps_merge(p.drop_last(), c, e);
        let r0 = g_caps_unnamed(p.drop_last(), c);
        assert(p.contains(e) <==> (p.drop_last().contains(e) || e == p.last())) by {
            if p.contains(e) {
                let i = choose|i: int| 0 <= i < p.len() && p[i] == e;
                if i < p.len() - 1 {
                    assert(p.drop_last()[i] == e);
                }
            }
            if p.drop_last().contains(e) {
                let i = choose|i: int| 0 <= i < p.drop_last().len() && p.drop_last()[i] == e;
                assert(p[i] == e);
            }
            if e == p.last() {
                assert(p[p.len() - 1] == e);
            }
        }
        if !g_caps_named(c, p.last().source) {
            let r = r0.push(p.last());
            assert(r.contains(e) <==> (r0.contains(e) || e == p.last())) by {
                if r.contains(e) {
                    let i = choose|i: int| 0 <= i < r.len() && r[i] == e;
                    if i < r0.len() {
                        assert(r0[i] == e);
                    }
                }
                if r0.contains(e) {
                    let i = choose|i: int| 0 <= i < r0.len() && r0[i] == e;
                    assert(r[i] == e);
                }
                if e == p.last() {
                    assert(r[r.len() - 1] == e);
                }
            }
        }
    }
}

/// Additive-merge law for the modifier list: the merged list opens with
/// the child's entries, unchanged and in order, and a parent entry
/// survives into the remainder exactly when the child names no entry
/// with its class.
pub proof fn lemma_mods_merge(p: Seq<GItemModifier>, c: Seq<GItemModifier>, e: GItemModifier)
    ensures
        g_merge_mods(p, c).len() == c.len() + g_mods_unnamed(p, c).len(),
        forall|i: int| 0 <= i < c.len() ==> g_merge_mods(p, c)[i] == c[i],
        g_mods_unnamed(p, c).contains(e) <==> (p.contains(e) && !g_mods_named(c, e.class)),
    decreases p.len(),
{
    if p.len() > 0 {
        lemma_mods_merge(p.drop_last(), c, e);
        let r0 = g_mods_unnamed(p.drop_last(), c);
        assert(p.contains(e) <==> (p.drop_last().contains(e) || e == p.last())) by {
            if p.contains(e) {
                let i = choose|i: int| 0 <= i < p.len() && p[i] == e;
                if i < p.len() - 1 {
                    assert(p.drop_last()[i] == e);
                }
            }
            if p.drop_last().contains(e) {
                let i = choose|i: int| 0 <= i < p.drop_last().len() && p.drop_last()[i] == e;
                assert(p[i] == e);
            }
            if e == p.last() {
                assert(p[p.len() - 1] == e);
            }
        }
        if !g_mods_named(c, p.last().class) {
            let r = r0.push(p.last());
            assert(r.contains(e) <==> (r0.contains(e) || e == p.last())) by {
                if r.contains(e) {
                    let i = choose|i: int| 0 <= i < r.len() && r[i] == e;
                    if i < r0.len() {
                        assert(r0[i] == e);
                    }
                }
                if r0.contains(e) {
                    let i = choose|i: int| 0 <= i < r0.len() && r0[i] == e;
                    assert(r[i] == e);
                }
                if e == p.last() {
                    assert(r[r.len() - 1] == e);
                }
            }
        }
    }
}

/// Merge of one parent carry-item bag into a child: scalars and
/// substructures by the child-wins rule; the capacity and modifier
/// lists merge additively under their natural keys (the capacity's
/// source, the modifier's class), never by wholesale replacement.
pub open spec fn g_merge_carry(p: GCarryItem, c: GCarryItem) -> GCarryItem {
    GCarryItem {
        key: g_scalar(p.key, c.key),
        template_file: g_scalar(p.template_file, c.template_file),
        name: g_scalar(p.name, c.name),
        slot: g_scalar(p.slot, c.slot),
        transform_on_consume: g_scalar(p.transform_on_consume, c.transform_on_consume),
        time_to_live: g_scalar(p.time_to_live, c.time_to_live),
        draggable: g_scalar(p.draggable, c.draggable),
        hud_icon: g_merge_hud(p.hud_icon, c.hud_icon),
        capacities: g_merge_caps(p.capacities, c.capacities),
        inventory: g_merge_inventory(p.inventory, c.inventory),
        commonness: match (p.commonness, c.commonness) {
            (Some(pp), Some(cc)) => Some(
                GCommonness {
                    value: g_scalar(pp.value, cc.value),
                    in_stock: g_scalar(pp.in_stock, cc.in_stock),
                    can_respawn_with: g_scalar(pp.can_respawn_with, cc.can_respawn_with),
                },
            ),
            (Some(pp), None) => Some(pp),
            (None, cc) => cc,
        },
        modifiers: g_merge_mods(p.modifiers, c.modifiers),
        model: match (p.model, c.model) {
            (Some(pp), Some(cc)) => Some(
                GModel { mesh_filename: g_scalar(pp.mesh_filename, cc.mesh_filename) },
            ),
            (Some(pp), None) => Some(pp),
            (None, cc) => cc,
        },
    }
}

/// Merge of one parent visual-item bag into a child.
pub open spec fn g_merge_visual(p: GVisualItem, c: GVisualItem) -> GVisualItem {
    GVisualItem {
        key: g_scalar(p.key, c.key),
        template_file: g_scalar(p.template_file, c.template_file),
        models: if c.models.len() == 0 {
            p.models
        } else {
            c.models
        },
        effect: match (p.effect, c.effect) {
            (Some(pp), Some(cc)) => Some(
                GEffect { effect_ref: g_scalar(pp.effect_ref, cc.effect_ref) },
            ),
            (Some(pp), None) => Some(pp),
            (None, cc) => cc,
        },
    }
}

/// Whether two optional texts hold the same value (or are both absent).
fn opt_str_eq(a: &Option<String>, b: &Option<String>) -> (r: bool)
    ensures
        r == (opt_str(*a) == opt_str(*b)),
{
    match (a, b) {
        (None, None) => true,
        (Some(x), Some(y)) => crate::text::str_eq(x.as_str(), y.as_str()),
        _ => false,
    }
}

/// Whether any capacity entry of `cs` declares the source `k`.
fn caps_named(cs: &Vec<RawCapacity>, k: &Option<String>) -> (r: bool)
    ensures
        r == g_caps_named(cs@.map_values(|x: RawCapacity| x@), opt_str(*k)),
{
    let ghost gcs = cs@.map_values(|x: RawCapacity| x@);
    let mut i: usize = 0;
    while i < cs.len()
        invariant
            i <= cs.len(),
            gcs == cs@.map_values(|x: RawCapacity| x@),
            gcs.len() == cs@.len(),
            forall|j: int| 0 <= j < i ==> (#[trigger] gcs[j]).source != opt_str(*k),
        decreases cs.len() - i,
    {
        if opt_str_eq(&cs[i].source, k) {
            proof {
                assert(gcs[i as int].source == opt_str(*k));
            }
            return true;
        }
        i = i + 1;
    }
    false
}

/// Whether any modifier entry of `ms` declares the class `k`.
fn mods_named(ms: &Vec<RawItemModifier>, k: &Option<String>) -> (r: bool)
    ensures
        r == g_mods_named(ms@.map_values(|x: RawItemModifier| x@), opt_str(*k)),
{
    let ghost gms = ms@.map_values(|x: RawItemModifier| x@);
    let mut i: usize = 0;
    while i < ms.len()
        invariant
            i <= ms.len(),
            gms == ms@.map_values(|x: RawItemModifier| x@),
            gms.len() == ms@.len(),
            forall|j: int| 0 <= j < i ==> (#[trigger] gms[j]).class != opt_str(*k),
        decreases ms.len() - i,
    {
        if opt_str_eq(&ms[i].class, k) {
            proof {
                assert(gms[i as int].class == opt_str(*k));
            }
            return true;
        }
        i = i + 1;
    }
    false
}

/// Merges a parent carry-item bag into a child bag.
pub fn merge_carry_item_attributes(parent: RawCarryItem, child: RawCarryItem) -> (r: RawCarryItem)
    ensures
        r@ == g_merge_carry(parent@, child@),
{
    let mut child = child;
    if child.key.is_none() {
        child.key = parent.key;
    }
    if child.template_file.is_none() {
        child.template_file = parent.template_file;
    }
    if child.name.is_none() {
        child.name = parent.name;
    }
    if child.slot.is_none() {
        child.slot = parent.slot;
    }
    if child.transform_on_consume.is_none() {
        child.transform_on_consume = parent.transform_on_consume;
    }
    if child.time_to_live.is_none() {
        child.time_to_live = parent.time_to_live;
    }
    if child.draggable.is_none() {
        child.draggable = parent.draggable;
    }
    child.hud_icon = merge_hud_icon(parent.hud_icon, child.hud_icon);
    child.inventory = merge_inventory(parent.inventory, child.inventory);
    child.commonness = merge_commonness(parent.commonness, child.commonness);
    child.model = merge_model(parent.model, child.model);
    // capacities: keep the child's entries, then append the parent's for
    // the sources the child does not name
    let ghost gpc = parent.capacities@.map_values(|x: RawCapacity| x@);
    let ghost gcc = child.capacities@.map_values(|x: RawCapacity| x@);
    let mut kept_caps: Vec<RawCapacity> = Vec::new();
    let mut i: usize = 0;
    proof {
        assert(gpc.subrange(0, 0) =~= Seq::<GCapacity>::empty());
        assert(kept_caps@.map_values(|x: RawCapacity| x@) =~= g_caps_unnamed(
            gpc.subrange(0, 0),
            gcc,
        ));
    }
    while i < parent.capacities.len()
        invariant
            i <= parent.capacities.len(),
            gpc == parent.capacities@.map_values(|x: RawCapacity| x@),
            gpc.len() == parent.capacities@.len(),
            gcc == child.capacities@.map_values(|x: RawCapacity| x@),
            kept_caps@.map_values(|x: RawCapacity| x@) == g_caps_unnamed(
                gpc.subrange(0, i as int),
                gcc,
            ),
        decreases parent.capacities.len() - i,
    {
        let ghost pre = gpc.subrange(0, i as int);
        let ghost post = gpc.subrange(0, i as int + 1);
        proof {
            assert(post.drop_last() =~= pre);
            assert(post.last() == gpc[i as int]);
        }
        let e = &parent.capacities[i];
        if !caps_named(&child.capacities, &e.source) {
            let ghost m0 = kept_caps@.map_values(|x: RawCapacity| x@);
            kept_caps.push(
                RawCapacity {
                    value: clone_opt(&e.value),
                    source: clone_opt(&e.source),
                    source_value: clone_opt(&e.source_value),
                },
            );
            proof {
                assert(kept_caps@.map_values(|x: RawCapacity| x@) =~= m0.push(gpc[i as int]));
            }
        }
        i = i + 1;
    }
    proof {
        assert(gpc.subrange(0, gpc.len() as int) =~= gpc);
    }
    child.capacities.append(&mut kept_caps);
    proof {
        assert(child.capacities@.map_values(|x: RawCapacity| x@) =~= g_merge_caps(gpc, gcc));
    }
    // modifiers: the same additive merge, keyed by the class
    let ghost gpm = parent.modifiers@.map_values(|x: RawItemModifier| x@);
    let ghost gcm = child.modifiers@.map_values(|x: RawItemModifier| x@);
    let mut kept_mods: Vec<RawItemModifier> = Vec::new();
    let mut m: usize = 0;
    proof {
        assert(gpm.subrange(0, 0) =~= Seq::<GItemModifier>::empty());
        assert(kept_mods@.map_values(|x: RawItemModifier| x@) =~= g_mods_unnamed(
            gpm.subrange(0, 0),
            gcm,
        ));
    }
    while m < parent.modifiers.len()
        invariant
            m <= parent.modifiers.len(),
            gpm == parent.modifiers@.map_values(|x: RawItemModifier| x@),
            gpm.len() == parent.modifiers@.len(),
            gcm == child.modifiers@.map_values(|x: RawItemModifier| x@),
            kept_mods@.map_values(|x: RawItemModifier| x@) == g_mods_unnamed(
                gpm.subrange(0, m as int),
                gcm,
            ),
        decreases parent.modifiers.len() - m,
    {
        let ghost pre = gpm.subrange(0, m as int);
        let ghost post = gpm.subrange(0, m as int + 1);
        proof {
            assert(post.drop_last() =~= pre);
            assert(post.last() == gpm[m as int]);
        }
        let e = &parent.modifiers[m];
        if !mods_named(&child.modifiers, &e.class) {
            let ghost m0 = kept_mods@.map_values(|x: RawItemModifier| x@);
            kept_mods.push(
                RawItemModifier {
                    class: clone_opt(&e.class),
                    value: clone_opt(&e.value),
                    input_character_state: clone_opt(&e.input_character_state),
                    output_character_state: clone_opt(&e.output_character_state),
                    consumes_item: clone_opt(&e.consumes_item),
                },
            );
            proof {
                assert(kept_mods@.map_values(|x: RawItemModifier| x@) =~= m0.push(gpm[m as int]));
            }
        }
        m = m + 1;
    }
    proof {
        assert(gpm.subrange(0, gpm.len() as int) =~= gpm);
    }
    child.modifiers.append(&mut kept_mods);
    proof {
        assert(child.modifiers@.map_values(|x: RawItemModifier| x@) =~= g_merge_mods(gpm, gcm));
    }
    child
}

/// Merges a parent visual-item bag into a child bag.
pub fn merge_visual_item_attributes(parent: RawVisualItem, child: RawVisualItem) -> (r:
    RawVisualItem)
    ensures
        r@ == g_merge_visual(parent@, child@),
{
    let mut child = child;
    if child.key.is_none() {
        child.key = parent.key;
    }
    if child.template_file.is_none() {
        child.template_file = parent.template_file;
    }
    if child.models.len() == 0 {
        child.models = parent.models;
    }
    child.effect = match (parent.effect, child.effect) {
        (Some(pp), Some(cc)) => Some(
            RawEffect {
                effect_ref: if cc.effect_ref.is_some() {
                    cc.effect_ref
                } else {
                    pp.effect_ref
                },
            },
        ),
        (Some(pp), None) => Some(pp),
        (None, cc) => cc,
    };
    child
}

/// Substructure merge of the icon reference, as values.
pub fn merge_hud_icon(parent: Option<RawHudIcon>, child: Option<RawHudIcon>) -> (r: Option<
    RawHudIcon,
>)
    ensures
        (match r {
            Some(h) => Some(h@),
            None => None,
        }) == g_merge_hud(
            match parent {
                Some(h) => Some(h@),
                None => None,
            },
            match child {
                Some(h) => Some(h@),
                None => None,
            },
        ),
{
    match (parent, child) {
        (Some(pp), Some(cc)) => Some(
            RawHudIcon {
                filename: if cc.filename.is_some() {
                    cc.filename
                } else {
                    pp.filename
                },
            },
        ),
        (Some(pp), None) => Some(pp),
        (_, cc) => cc,
    }
}

/// Substructure merge of the inventory block, as values.
pub fn merge_inventory(parent: Option<RawInventory>, child: Option<RawInventory>) -> (r: Option<
    RawInventory,
>)
    ensures
        (match r {
            Some(v) => Some(v@),
            None => None,
        }) == g_merge_inventory(
            match parent {
                Some(v) => Some(v@),
                None => None,
            },
            match child {
                Some(v) => Some(v@),
                None => None,
            },
        ),
{
    match (parent, child) {
        (Some(pp), Some(cc)) => Some(
            RawInventory {
                encumbrance: if cc.encumbrance.is_some() {
                    cc.encumbrance
                } else {
                    pp.encumbrance
                },
                price: if cc.price.is_some() {
                    cc.price
                } else {
                    pp.price
                },
            },
        ),
        (Some(pp), None) => Some(pp),
        (_, cc) => cc,
    }
}

/// Substructure merge of the commonness block, as values.
pub fn merge_commonness(parent: Option<RawCommonness>, child: Option<RawCommonness>) -> (r: Option<
    RawCommonness,
>)
    ensures
        (match r {
            Some(v) => Some(v@),
            None => None,
        }) == (match (
            match parent {
                Some(v) => Some(v@),
                None => None::<GCommonness>,
            },
            match child {
                Some(v) => Some(v@),
                None => None::<GCommonness>,
            },
        ) {
            (Some(pp), Some(cc)) => Some(
                GCommonness {
                    value: g_scalar(pp.value, cc.value),
                    in_stock: g_scalar(pp.in_stock, cc.in_stock),
                    can_respawn_with: g_scalar(pp.can_respawn_with, cc.can_respawn_with),
                },
            ),
            (Some(pp), None) => Some(pp),
            (None, cc) => cc,
        }),
{
    match (parent, child) {
        (Some(pp), Some(cc)) => Some(
            RawCommonness {
                value: if cc.value.is_some() {
                    cc.value
                } else {
                    pp.value
                },
                in_stock: if cc.in_stock.is_some() {
                    cc.in_stock
                } else {
                    pp.in_stock
                },
                can_respawn_with: if cc.can_respawn_with.is_some() {
                    cc.can_respawn_with
                } else {
                    pp.can_respawn_with
                },
            },
        ),
        (Some(pp), None) => Some(pp),
        (_, cc) => cc,
    }
}

/// Substructure merge of the model block, as values.
pub fn merge_model(parent: Option<RawModel>, child: Option<RawModel>) -> (r: Option<RawModel>)
    ensures
        (match r {
            Some(v) => Some(v@),
            None => None,
        }) == (match (
            match parent {
                Some(v) => Some(v@),
                None => None::<GModel>,
            },
            match child {
                Some(v) => Some(v@),
                None => None::<GModel>,
            },
        ) {
            (Some(pp), Some(cc)) => Some(
                GModel { mesh_filename: g_scalar(pp.mesh_filename, cc.mesh_filename) },
            ),
            (Some(pp), None) => Some(pp),
            (None, cc) => cc,
        }),
{
    match (parent, child) {
        (Some(pp), Some(cc)) => Some(
            RawModel {
                mesh_filename: if cc.mesh_filename.is_some() {
                    cc.mesh_filename
                } else {
                    pp.mesh_filename
                },
            },
        ),
        (Some(pp), None) => Some(pp),
        (_, cc) => cc,
    }
}

/// Which entry of a multi-entry template file to inherit from: an
/// explicit key carried from the requesting entry, and that entry's own
/// position as the fallback.
pub struct CarryTemplateSelector {
    pub key: Option<String>,
    pub index: usize,
}

/// Why an item template chain could not be resolved.
pub enum ItemResolveError {
    TemplateNotFound { direct: FsPath, fallback: Option<FsPath> },
    CircularReference { reference: String },
    DepthExceeded,
    MalformedTemplate { path: FsPath },
    NoParentDirectory { path: FsPath },
    SelectionFailed { path: FsPath, key: String, index: usize },
    AmbiguousSelection { path: FsPath, entries: usize, index: usize },
}

/// Ghost form of an item resolution error.
pub enum GItemResolveError {
    NotFound { direct: Seq<Seq<char>>, fallback: Option<Seq<Seq<char>>> },
    Cycle { reference: Seq<char> },
    Depth,
    Malformed { path: Seq<Seq<char>> },
    NoParent { path: Seq<Seq<char>> },
    Selection { path: Seq<Seq<char>>, key: Seq<char>, index: int },
    Ambiguous { path: Seq<Seq<char>>, entries: int, index: int },
}

impl View for ItemResolveError {
    type V = GItemResolveError;

    open spec fn view(&self) -> GItemResolveError {
        match self {
            ItemResolveError::TemplateNotFound { direct, fallback } => GItemResolveError::NotFound {
                direct: direct@,
                fallback: match fallback {
                    Some(f) => Some(f@),
                    None => None,
                },
            },
            ItemResolveError::CircularReference { reference } => GItemResolveError::Cycle {
                reference: reference@,
            },
            ItemResolveError::DepthExceeded => GItemResolveError::Depth,
            ItemResolveError::MalformedTemplate { path } => GItemResolveError::Malformed {
                path: path@,
            },
            ItemResolveError::NoParentDirectory { path } => GItemResolveError::NoParent {
                path: path@,
            },
            ItemResolveError::SelectionFailed { path, key, index } => GItemResolveError::Selection {
                path: path@,
                key: key@,
                index: *index as int,
            },
            ItemResolveError::AmbiguousSelection { path, entries, index } => GItemResolveError::Ambiguous {
                path: path@,
                entries: *entries as int,
                index: *index as int,
            },
        }
    }
}

/// The human-readable description of an item resolution error; `kind`
/// names the definition kind (`carry_item` or `visual_item`) that the
/// cycle and depth messages carry.
pub open spec fn g_item_error_message(kind: Seq<char>, e: GItemResolveError) -> Seq<char> {
    match e {
        GItemResolveError::NotFound { direct, fallback } => match fallback {
            Some(f) => "Template not found: "@ + crate::fspath::abs_display(direct)
                + " (also tried: "@ + crate::fspath::abs_display(f) + ")"@,
            None => "Template not found: "@ + crate::fspath::abs_display(direct),
        },
        GItemResolveError::Cycle { reference } => "Circular "@ + kind
            + " template reference detected: "@ + reference,
        GItemResolveError::Depth => kind + " template depth exceeded limit (>10)"@,
        GItemResolveError::Malformed { path } => "Template markup is malformed: "@
            + crate::fspath::abs_display(path),
        GItemResolveError::NoParent { path } => "Cannot get parent directory of template: "@
            + crate::fspath::abs_display(path),
        GItemResolveError::Selection { path, key, index } => "Cannot select entry from template: "@
            + crate::fspath::abs_display(path) + " (key="@ + key + ", index="@
            + crate::text::dec_of(index as nat) + ")"@,
        GItemResolveError::Ambiguous { path, entries, index } => "Ambiguous template selection: "@
            + crate::fspath::abs_display(path) + " ("@ + crate::text::dec_of(entries as nat)
            + " entries, index "@ + crate::text::dec_of(index as nat) + ")"@,
    }
}

/// Appends the decimal form of `n` to `out`.
fn push_dec(out: &mut Vec<char>, n: usize)
    ensures
        final(out)@ == old(out)@ + crate::text::dec_of(n as nat),
{
    let digits = crate::text::dec_chars(n as u64);
    let mut i: usize = 0;
    let ghost base = old(out)@;
    while i < digits.len()
        invariant
            i <= digits.len(),
            digits@ == crate::text::dec_of(n as nat),
            out@ =~= base + digits@.subrange(0, i as int),
        decreases digits.len() - i,
    {
        out.push(digits[i]);
        i = i + 1;
    }
    proof {
        assert(digits@.subrange(0, digits@.len() as int) =~= digits@);
    }
}

impl ItemResolveError {
    /// Renders this error as its description; `kind` names the
    /// definition kind the cycle and depth messages carry.
    pub fn message(&self, kind: &str) -> (r: String)
        ensures
            r@ == g_item_error_message(kind@, self@),
    {
        let mut out: Vec<char> = Vec::new();
        match self {
            ItemResolveError::TemplateNotFound { direct, fallback } => {
                push_str_chars(&mut out, "Template not found: ");
                let d = direct.to_string_abs();
                push_str_chars(&mut out, d.as_str());
                match fallback {
                    Some(f) => {
                        push_str_chars(&mut out, " (also tried: ");
                        let fs = f.to_string_abs();
                        push_str_chars(&mut out, fs.as_str());
                        push_str_chars(&mut out, ")");
                    },
                    None => {},
                }
            },
            ItemResolveError::CircularReference { reference } => {
                push_str_chars(&mut out, "Circular ");
                push_str_chars(&mut out, kind);
                push_str_chars(&mut out, " template reference detected: ");
                push_str_chars(&mut out, reference.as_str());
            },
            ItemResolveError::DepthExceeded => {
                push_str_chars(&mut out, kind);
                push_str_chars(&mut out, " template depth exceeded limit (>10)");
            },
            ItemResolveError::MalformedTemplate { path } => {
                push_str_chars(&mut out, "Template markup is malformed: ");
                let d = path.to_string_abs();
                push_str_chars(&mut out, d.as_str());
            },
            ItemResolveError::NoParentDirectory { path } => {
                push_str_chars(&mut out, "Cannot get parent directory of template: ");
                let d = path.to_string_abs();
                push_str_chars(&mut out, d.as_str());
            },
            ItemResolveError::SelectionFailed { path, key, index } => {
                push_str_chars(&mut out, "Cannot select entry from template: ");
                let d = path.to_string_abs();
                push_str_chars(&mut out, d.as_str());
                push_str_chars(&mut out, " (key=");
                push_str_chars(&mut out, key.as_str());
                push_str_chars(&mut out, ", index=");
                push_dec(&mut out, *index);
                push_str_chars(&mut out, ")");
            },
            ItemResolveError::AmbiguousSelection { path, entries, index } => {
                push_str_chars(&mut out, "Ambiguous template selection: ");
                let d = path.to_string_abs();
                push_str_chars(&mut out, d.as_str());
                push_str_chars(&mut out, " (");
                push_dec(&mut out, *entries);
                push_str_chars(&mut out, " entries, index ");
                push_dec(&mut out, *index);
                push_str_chars(&mut out, ")");
            },
        }
        proof {
            assert(Seq::<char>::empty() + g_item_error_message(kind@, self@)
                =~= g_item_error_message(kind@, self@));
        }
        crate::text::chars_to_string(&out)
    }
}

/// Position of the first entry declaring the key `k`, if any.
pub open spec fn g_key_pos(entries: Seq<GCarryItem>, k: Seq<char>) -> Option<int>
    decreases entries.len(),
{
    if entries.len() == 0 {
        None
    } else if entries[0].key == Some(k) {
        Some(0)
    } else {
        match g_key_pos(entries.subrange(1, entries.len() as int), k) {
            Some(i) => Some(i + 1),
            None => None,
        }
    }
}

/// Selection of the template entry to inherit from: by the carried key
/// when it matches, unconditionally for a single-entry file, by the
/// requesting entry's position otherwise; `None` when nothing applies.
pub open spec fn g_select(entries: Seq<GCarryItem>, sel_key: Option<Seq<char>>, idx: int) -> Option<
    GCarryItem,
> {
    match sel_key {
        Some(k) => match g_key_pos(entries, k) {
            Some(j) => Some(entries[j]),
            None => if 0 <= idx < entries.len() {
                Some(entries[idx])
            } else {
                None
            },
        },
        None => if entries.len() == 1 {
            Some(entries[0])
        } else if 0 <= idx < entries.len() {
            Some(entries[idx])
        } else {
            None
        },
    }
}

/// Resolution of a carry-item template chain: template located with the
/// base-package fallback, cycles and depth guarded, the entry chosen by
/// `g_select`, the entry's own parent resolved in turn and folded in.
pub open spec fn g_resolve_carry(
    t: Seq<crate::fstable::GFile>,
    base_dir: Seq<Seq<char>>,
    tref: Seq<char>,
    sel_key: Option<Seq<char>>,
    idx: int,
    visited: Seq<Seq<Seq<char>>>,
) -> Result<GCarryItem, GItemResolveError>
    decreases crate::weapons::MAX_TEMPLATE_DEPTH + 2 - visited.len(),
{
    let tp = crate::fstable::g_template_path(t, base_dir, tref, "items"@);
    if visited.contains(tp) {
        Err(GItemResolveError::Cycle { reference: tref })
    } else if visited.len() + 1 > crate::weapons::MAX_TEMPLATE_DEPTH {
        Err(GItemResolveError::Depth)
    } else {
        match crate::fstable::g_lookup(t, tp) {
            None => Err(
                GItemResolveError::NotFound {
                    direct: crate::fspath::joined_path(base_dir, tref),
                    fallback: match crate::fstable::g_fallback_dir(base_dir, "items"@) {
                        Some(fb) => Some(crate::fspath::joined_path(fb, tref)),
                        None => None,
                    },
                },
            ),
            Some(content) => match crate::markup::sp_document(content) {
                None => Err(GItemResolveError::Malformed { path: tp }),
                Some(root) => {
                    let entries = g_carry_entries(root.children);
                    if entries.len() == 0 {
                        Err(GItemResolveError::Malformed { path: tp })
                    } else {
                        match g_select(entries, sel_key, idx) {
                            None => match sel_key {
                                Some(k) => Err(
                                    GItemResolveError::Selection { path: tp, key: k, index: idx },
                                ),
                                None => Err(
                                    GItemResolveError::Ambiguous {
                                        path: tp,
                                        entries: entries.len() as int,
                                        index: idx,
                                    },
                                ),
                            },
                            Some(current) => match current.template_file {
                                None => Ok(current),
                                Some(pref) => {
                                    if tp.len() == 0 {
                                        Err(GItemResolveError::NoParent { path: tp })
                                    } else {
                                        let key2 = match current.key {
                                            Some(k) => Some(k),
                                            None => sel_key,
                                        };
                                        match g_resolve_carry(
                                            t,
                                            tp.drop_last(),
                                            pref,
                                            key2,
                                            idx,
                                            visited.push(tp),
                                        ) {
                                            Ok(parent) => Ok(g_merge_carry(parent, current)),
                                            Err(e) => Err(e),
                                        }
                                    }
                                },
                            },
                        }
                    }
                },
            },
        }
    }
}

/// Cycle law: a carry-item template reference whose resolved path was
/// already visited yields the cycle error at once, with no merge
/// applied.
pub proof fn lemma_carry_revisit_cycle(
    t: Seq<crate::fstable::GFile>,
    base_dir: Seq<Seq<char>>,
    tref: Seq<char>,
    sel_key: Option<Seq<char>>,
    idx: int,
    visited: Seq<Seq<Seq<char>>>,
)
    requires
        visited.contains(crate::fstable::g_template_path(t, base_dir, tref, "items"@)),
    ensures
        g_resolve_carry(t, base_dir, tref, sel_key, idx, visited) == Err::<
            GCarryItem,
            GItemResolveError,
        >(GItemResolveError::Cycle { reference: tref }),
{
}

/// Depth law: once the carry-item chain has visited the maximum number
/// of templates, the next unvisited reference yields the depth error,
/// and no merge beyond the limit is applied.
pub proof fn lemma_carry_depth_exceeded(
    t: Seq<crate::fstable::GFile>,
    base_dir: Seq<Seq<char>>,
    tref: Seq<char>,
    sel_key: Option<Seq<char>>,
    idx: int,
    visited: Seq<Seq<Seq<char>>>,
)
    requires
        !visited.contains(crate::fstable::g_template_path(t, base_dir, tref, "items"@)),
        visited.len() >= crate::weapons::MAX_TEMPLATE_DEPTH,
    ensures
        g_resolve_carry(t, base_dir, tref, sel_key, idx, visited) == Err::<
            GCarryItem,
            GItemResolveError,
        >(GItemResolveError::Depth),
{
}

/// The entry the carry-item file at `tp` yields for a selector, when
/// the file reads, parses to at least one entry, and the selection
/// succeeds.
pub open spec fn g_carry_selected(
    t: Seq<crate::fstable::GFile>,
    tp: Seq<Seq<char>>,
    sel_key: Option<Seq<char>>,
    idx: int,
) -> Option<GCarryItem> {
    match crate::fstable::g_lookup(t, tp) {
        Some(content) => match crate::markup::sp_document(content) {
            Some(root) => {
                let entries = g_carry_entries(root.children);
                if entries.len() == 0 {
                    None
                } else {
                    g_select(entries, sel_key, idx)
                }
            },
            None => None,
        },
        None => None,
    }
}

/// The selector key a chosen entry hands to its own parent: its own key
/// when it declares one, the incoming key otherwise.
pub open spec fn g_carried_key(
    cur: GCarryItem,
    sel_key: Option<Seq<char>>,
) -> Option<Seq<char>> {
    match cur.key {
        Some(k) => Some(k),
        None => sel_key,
    }
}

/// Indirect-cycle law: a carry-item chain that returns to an
/// already-resolved template path through an intermediate file yields
/// the cycle error from a fresh call, after finitely many steps and
/// with no merge applied.
pub proof fn lemma_carry_indirect_cycle(
    t: Seq<crate::fstable::GFile>,
    base_dir: Seq<Seq<char>>,
    tref: Seq<char>,
    sel_key: Option<Seq<char>>,
    idx: int,
    cur1: GCarryItem,
    ref2: Seq<char>,
    cur2: GCarryItem,
    ref3: Seq<char>,
)
    requires
        crate::weapons::MAX_TEMPLATE_DEPTH >= 2,
        ({
            let tp1 = crate::fstable::g_template_path(t, base_dir, tref, "items"@);
            let key2 = g_carried_key(cur1, sel_key);
            let tp2 = crate::fstable::g_template_path(t, tp1.drop_last(), ref2, "items"@);
            &&& tp1.len() > 0
            &&& g_carry_selected(t, tp1, sel_key, idx) == Some(cur1)
            &&& cur1.template_file == Some(ref2)
            &&& tp2 != tp1
            &&& tp2.len() > 0
            &&& g_carry_selected(t, tp2, key2, idx) == Some(cur2)
            &&& cur2.template_file == Some(ref3)
            &&& crate::fstable::g_template_path(t, tp2.drop_last(), ref3, "items"@) == tp1
        }),
    ensures
        g_resolve_carry(t, base_dir, tref, sel_key, idx, Seq::empty()) == Err::<
            GCarryItem,
            GItemResolveError,
        >(GItemResolveError::Cycle { reference: ref3 }),
{
    let tp1 = crate::fstable::g_template_path(t, base_dir, tref, "items"@);
    let key2 = g_carried_key(cur1, sel_key);
    let tp2 = crate::fstable::g_template_path(t, tp1.drop_last(), ref2, "items"@);
    let key3 = g_carried_key(cur2, key2);
    assert(!Seq::<Seq<Seq<char>>>::empty().contains(tp1));
    let v1 = Seq::<Seq<Seq<char>>>::empty().push(tp1);
    assert(!v1.contains(tp2)) by {
        assert(forall|j: int| 0 <= j < v1.len() ==> v1[j] == tp1);
    }
    let v2 = v1.push(tp2);
    assert(v2.contains(tp1)) by {
        assert(v2[0] == tp1);
    }
    lemma_carry_revisit_cycle(t, tp2.drop_last(), ref3, key3, idx, v2);
    assert(g_resolve_carry(t, tp1.drop_last(), ref2, key2, idx, v1) == Err::<
        GCarryItem,
        GItemResolveError,
    >(GItemResolveError::Cycle { reference: ref3 }));
}

/// The first `n` links of a carry-item template chain hold together:
/// each reference resolves to the matching path, each linked file
/// except the last selects the given entry under the propagated key,
/// and that entry declares the next reference.
pub open spec fn g_carry_chain_links(
    t: Seq<crate::fstable::GFile>,
    base_dir: Seq<Seq<char>>,
    refs: Seq<Seq<char>>,
    tps: Seq<Seq<Seq<char>>>,
    curs: Seq<GCarryItem>,
    keys: Seq<Option<Seq<char>>>,
    idx: int,
    n: int,
) -> bool {
    &&& refs.len() >= n
    &&& tps.len() >= n
    &&& curs.len() >= n - 1
    &&& keys.len() >= n
    &&& (forall|i: int|
        0 <= i < n ==> #[trigger] tps[i] == crate::fstable::g_template_path(
            t,
            if i == 0 {
                base_dir
            } else {
                tps[i - 1].drop_last()
            },
            refs[i],
            "items"@,
        ))
    &&& (forall|i: int| 0 <= i < n - 1 ==> (#[trigger] tps[i]).len() > 0)
    &&& (forall|i: int|
        0 <= i < n - 1 ==> g_carry_selected(t, #[trigger] tps[i], keys[i], idx) == Some(curs[i]))
    &&& (forall|i: int| 0 <= i < n - 1 ==> (#[trigger] curs[i]).template_file == Some(refs[i + 1]))
    &&& (forall|i: int|
        0 <= i < n - 1 ==> keys[i + 1] == g_carried_key(#[trigger] curs[i], keys[i]))
}

/// Depth law over a whole carry-item chain: a chain of more than
/// `MAX_TEMPLATE_DEPTH` templates, none of whose paths repeats, ends in
/// the depth error from a fresh call, and no merge beyond the limit is
/// applied.
pub proof fn lemma_carry_chain_depth_exceeded(
    t: Seq<crate::fstable::GFile>,
    base_dir: Seq<Seq<char>>,
    refs: Seq<Seq<char>>,
    tps: Seq<Seq<Seq<char>>>,
    curs: Seq<GCarryItem>,
    keys: Seq<Option<Seq<char>>>,
    idx: int,
)
    requires
        g_carry_chain_links(
            t,
            base_dir,
            refs,
            tps,
            curs,
            keys,
            idx,
            crate::weapons::MAX_TEMPLATE_DEPTH + 1,
        ),
        forall|a: int, b: int|
            0 <= a < b <= crate::weapons::MAX_TEMPLATE_DEPTH ==> tps[a] != tps[b],
    ensures
        g_resolve_carry(t, base_dir, refs[0], keys[0], idx, Seq::empty()) == Err::<
            GCarryItem,
            GItemResolveError,
        >(GItemResolveError::Depth),
{
    assert(Seq::<Seq<Seq<char>>>::empty() =~= tps.subrange(0, 0));
    lemma_carry_chain_depth_from(t, base_dir, refs, tps, curs, keys, idx, 0);
}

/// One unfolding of the carry-item resolver at a link whose file
/// selects an entry that declares a further reference: the resolution
/// is whatever the parent's resolution yields, with the parent merged
/// in on success and the error passed through on failure.
#[verifier::rlimit(60)]
proof fn lemma_carry_step(
    t: Seq<crate::fstable::GFile>,
    dir: Seq<Seq<char>>,
    tref: Seq<char>,
    sel_key: Option<Seq<char>>,
    idx: int,
    visited: Seq<Seq<Seq<char>>>,
    cur: GCarryItem,
    next_ref: Seq<char>,
)
    requires
        ({
            let tp = crate::fstable::g_template_path(t, dir, tref, "items"@);
            &&& !visited.contains(tp)
            &&& visited.len() + 1 <= crate::weapons::MAX_TEMPLATE_DEPTH
            &&& tp.len() > 0
            &&& g_carry_selected(t, tp, sel_key, idx) == Some(cur)
            &&& cur.template_file == Some(next_ref)
        }),
    ensures
        ({
            let tp = crate::fstable::g_template_path(t, dir, tref, "items"@);
            g_resolve_carry(t, dir, tref, sel_key, idx, visited) == (match g_resolve_carry(
                t,
                tp.drop_last(),
                next_ref,
                g_carried_key(cur, sel_key),
                idx,
                visited.push(tp),
            ) {
                Ok(parent) => Ok(g_merge_carry(parent, cur)),
                Err(e) => Err(e),
            })
        }),
{
}

/// One inductive step of the whole-chain depth law for carry items.
proof fn lemma_carry_chain_depth_from(
    t: Seq<crate::fstable::GFile>,
    base_dir: Seq<Seq<char>>,
    refs: Seq<Seq<char>>,
    tps: Seq<Seq<Seq<char>>>,
    curs: Seq<GCarryItem>,
    keys: Seq<Option<Seq<char>>>,
    idx: int,
    i: int,
)
    requires
        0 <= i <= crate::weapons::MAX_TEMPLATE_DEPTH,
        g_carry_chain_links(
            t,
            base_dir,
            refs,
            tps,
            curs,
            keys,
            idx,
            crate::weapons::MAX_TEMPLATE_DEPTH + 1,
        ),
        forall|a: int, b: int|
            0 <= a < b <= crate::weapons::MAX_TEMPLATE_DEPTH ==> tps[a] != tps[b],
    ensures
        g_resolve_carry(
            t,
            if i == 0 {
                base_dir
            } else {
                tps[i - 1].drop_last()
            },
            refs[i],
            keys[i],
            idx,
            tps.subrange(0, i),
        ) == Err::<GCarryItem, GItemResolveError>(GItemResolveError::Depth),
    decreases crate::weapons::MAX_TEMPLATE_DEPTH - i,
{
    let dir = if i == 0 {
        base_dir
    } else {
        tps[i - 1].drop_last()
    };
    let visited = tps.subrange(0, i);
    let tp = crate::fstable::g_template_path(t, dir, refs[i], "items"@);
    assert(tp == tps[i]);
    assert(!visited.contains(tp)) by {
        assert(forall|j: int| 0 <= j < i ==> visited[j] == tps[j]);
    }
    if i == crate::weapons::MAX_TEMPLATE_DEPTH {
        assert(visited.len() + 1 > crate::weapons::MAX_TEMPLATE_DEPTH);
    } else {
        assert(g_carry_selected(t, tps[i], keys[i], idx) == Some(curs[i]));
        assert(curs[i].template_file == Some(refs[i + 1]));
        assert(keys[i + 1] == g_carried_key(curs[i], keys[i]));
        assert(tps[i].len() > 0);
        lemma_carry_step(t, dir, refs[i], keys[i], idx, visited, curs[i], refs[i + 1]);
        lemma_carry_chain_depth_from(t, base_dir, refs, tps, curs, keys, idx, i + 1);
        assert(visited.push(tp) =~= tps.subrange(0, i + 1));
    }
}

/// Finds the entry the selector chooses, as a position into `entries`.
fn select_entry_pos(entries: &Vec<RawCarryItem>, sel_key: &Option<String>, idx: usize) -> (r:
    Option<usize>)
    ensures
        ({
            let ge = entries@.map_values(|c: RawCarryItem| c@);
            let gk = opt_str(*sel_key);
            match r {
                Some(j) => j < entries@.len() && g_select(ge, gk, idx as int) == Some(ge[j as int]),
                None => g_select(ge, gk, idx as int) is None,
            }
        }),
{
    let ghost ge = entries@.map_values(|c: RawCarryItem| c@);
    match sel_key {
        Some(k) => {
            // look for the first entry declaring the key
            let mut i: usize = 0;
            proof {
                assert(ge.subrange(0, ge.len() as int) =~= ge);
            }
            while i < entries.len()
                invariant
                    i <= entries.len(),
                    ge == entries@.map_values(|c: RawCarryItem| c@),
                    ge.len() == entries@.len(),
                    opt_str(*sel_key) == Some(k@),
                    ({
                        let tail = ge.subrange(i as int, ge.len() as int);
                        match g_key_pos(tail, k@) {
                            Some(x) => g_key_pos(ge, k@) == Some(x + i),
                            None => g_key_pos(ge, k@) is None,
                        }
                    }),
                decreases entries.len() - i,
            {
                let ghost tail = ge.subrange(i as int, ge.len() as int);
                proof {
                    assert(tail[0] == ge[i as int]);
                    assert(tail.subrange(1, tail.len() as int) =~= ge.subrange(
                        i as int + 1,
                        ge.len() as int,
                    ));
                }
                let hit = match &entries[i].key {
                    Some(ek) => crate::text::str_eq(ek.as_str(), k.as_str()),
                    None => false,
                };
                if hit {
                    proof {
                        assert(ge[i as int] == entries@[i as int]@);
                        assert(ge[i as int].key == Some(k@));
                        assert(g_key_pos(tail, k@) == Some(0int));
                    }
                    return Some(i);
                }
                proof {
                    assert(ge[i as int] == entries@[i as int]@);
                    assert(ge[i as int].key != Some(k@));
                }
                i = i + 1;
            }
            proof {
                assert(ge.subrange(i as int, ge.len() as int).len() == 0);
            }
            if idx < entries.len() {
                Some(idx)
            } else {
                None
            }
        },
        None => {
            if entries.len() == 1 {
                Some(0)
            } else if idx < entries.len() {
                Some(idx)
            } else {
                None
            }
        },
    }
}

/// Resolves a carry-item template chain and returns the fully folded
/// parent entry.
pub fn resolve_carry_item_template(
    table: &crate::fstable::FileTable,
    base_dir: &FsPath,
    template_file: &str,
    selector: &CarryTemplateSelector,
    visited: Vec<FsPath>,
) -> (r: Result<RawCarryItem, ItemResolveError>)
    ensures
        match r {
            Ok(c) => g_resolve_carry(
                table@,
                base_dir@,
                template_file@,
                opt_str(selector.key),
                selector.index as int,
                visited@.map_values(|p: FsPath| p@),
            ) == Ok::<GCarryItem, GItemResolveError>(c@),
            Err(e) => g_resolve_carry(
                table@,
                base_dir@,
                template_file@,
                opt_str(selector.key),
                selector.index as int,
                visited@.map_values(|p: FsPath| p@),
            ) == Err::<GCarryItem, GItemResolveError>(e@),
        },
    decreases crate::weapons::MAX_TEMPLATE_DEPTH + 2 - visited.len(),
{
    let ghost gvis = visited@.map_values(|p: FsPath| p@);
    let tp = crate::fstable::locate_template(table, base_dir, template_file, "items");
    // cycle check
    let mut seen = false;
    let mut i: usize = 0;
    while i < visited.len()
        invariant
            i <= visited.len(),
            gvis == visited@.map_values(|p: FsPath| p@),
            gvis.len() == visited@.len(),
            seen ==> gvis.contains(tp@),
            !seen ==> forall|j: int| 0 <= j < i ==> gvis[j] != tp@,
        decreases visited.len() - i,
    {
        if visited[i].eq_path(&tp) {
            seen = true;
            proof {
                assert(gvis[i as int] == tp@);
            }
            i = visited.len();
        } else {
            i = i + 1;
        }
    }
    if seen {
        return Err(ItemResolveError::CircularReference { reference: template_file.to_owned() });
    }
    proof {
        assert(!gvis.contains(tp@));
    }
    if visited.len() >= crate::weapons::MAX_TEMPLATE_DEPTH {
        return Err(ItemResolveError::DepthExceeded);
    }
    let content = match table.lookup(&tp) {
        Some(c) => c,
        None => {
            let direct = base_dir.join_rel(template_file);
            let fallback = match base_dir.ancestor_up(2) {
                Some(packages_dir) => {
                    let fb = packages_dir.child("vanilla").child("items");
                    proof {
                        assert(crate::fstable::g_fallback_dir(base_dir@, "items"@) == Some(fb@));
                    }
                    Some(fb.join_rel(template_file))
                },
                None => None,
            };
            return Err(ItemResolveError::TemplateNotFound { direct, fallback });
        },
    };
    let root = match crate::markup::parse_document(content.as_str()) {
        Some(root) => root,
        None => {
            return Err(ItemResolveError::MalformedTemplate { path: tp });
        },
    };
    let entries = carry_entries_of(&root);
    if entries.len() == 0 {
        return Err(ItemResolveError::MalformedTemplate { path: tp });
    }
    let pos = match select_entry_pos(&entries, &selector.key, selector.index) {
        Some(j) => j,
        None => {
            return match &selector.key {
                Some(k) => Err(
                    ItemResolveError::SelectionFailed {
                        path: tp,
                        key: k.clone(),
                        index: selector.index,
                    },
                ),
                None => Err(
                    ItemResolveError::AmbiguousSelection {
                        path: tp,
                        entries: entries.len(),
                        index: selector.index,
                    },
                ),
            };
        },
    };
    let ghost ge0 = entries@.map_values(|c: RawCarryItem| c@);
    let mut entries = entries;
    let current = entries.swap_remove(pos);
    proof {
        assert(current@ == ge0[pos as int]);
    }
    let parent_ref = match &current.template_file {
        Some(p) => p.clone(),
        None => {
            return Ok(current);
        },
    };
    let parent_dir = match tp.parent() {
        Some(d) => d,
        None => {
            return Err(ItemResolveError::NoParentDirectory { path: tp });
        },
    };
    let key2: Option<String> = match &current.key {
        Some(k) => Some(k.clone()),
        None => clone_opt(&selector.key),
    };
    let next_selector = CarryTemplateSelector { key: key2, index: selector.index };
    let ghost gtp = tp@;
    let mut visited = visited;
    visited.push(tp);
    proof {
        assert(visited@.map_values(|p: FsPath| p@) =~= gvis.push(gtp));
    }
    match resolve_carry_item_template(
        table,
        &parent_dir,
        parent_ref.as_str(),
        &next_selector,
        visited,
    ) {
        Ok(parent) => Ok(merge_carry_item_attributes(parent, current)),
        Err(e) => Err(e),
    }
}

/// Resolution of a visual-item template chain.
pub open spec fn g_resolve_visual(
    t: Seq<crate::fstable::GFile>,
    base_dir: Seq<Seq<char>>,
    tref: Seq<char>,
    visited: Seq<Seq<Seq<char>>>,
) -> Result<GVisualItem, GItemResolveError>
    decreases crate::weapons::MAX_TEMPLATE_DEPTH + 2 - visited.len(),
{
    let tp = crate::fstable::g_template_path(t, base_dir, tref, "items"@);
    if visited.contains(tp) {
        Err(GItemResolveError::Cycle { reference: tref })
    } else if visited.len() + 1 > crate::weapons::MAX_TEMPLATE_DEPTH {
        Err(GItemResolveError::Depth)
    } else {
        match crate::fstable::g_lookup(t, tp) {
            None => Err(
                GItemResolveError::NotFound {
                    direct: crate::fspath::joined_path(base_dir, tref),
                    fallback: match crate::fstable::g_fallback_dir(base_dir, "items"@) {
                        Some(fb) => Some(crate::fspath::joined_path(fb, tref)),
                        None => None,
                    },
                },
            ),
            Some(content) => match crate::markup::sp_document(content) {
                None => Err(GItemResolveError::Malformed { path: tp }),
                Some(root) => {
                    let current = g_visual_of(root);
                    match current.template_file {
                        None => Ok(current),
                        Some(pref) => {
                            if tp.len() == 0 {
                                Err(GItemResolveError::NoParent { path: tp })
                            } else {
                                match g_resolve_visual(t, tp.drop_last(), pref, visited.push(tp)) {
                                    Ok(parent) => Ok(g_merge_visual(parent, current)),
                                    Err(e) => Err(e),
                                }
                            }
                        },
                    }
                },
            },
        }
    }
}

/// Resolves a visual-item template chain and returns the fully folded
/// parent bag.
pub fn resolve_visual_item_template(
    table: &crate::fstable::FileTable,
    base_dir: &FsPath,
    template_file: &str,
    visited: Vec<FsPath>,
) -> (r: Result<RawVisualItem, ItemResolveError>)
    ensures
        match r {
            Ok(c) => g_resolve_visual(
                table@,
                base_dir@,
                template_file@,
                visited@.map_values(|p: FsPath| p@),
            ) == Ok::<GVisualItem, GItemResolveError>(c@),
            Err(e) => g_resolve_visual(
                table@,
                base_dir@,
                template_file@,
                visited@.map_values(|p: FsPath| p@),
            ) == Err::<GVisualItem, GItemResolveError>(e@),
        },
    decreases crate::weapons::MAX_TEMPLATE_DEPTH + 2 - visited.len(),
{
    let ghost gvis = visited@.map_values(|p: FsPath| p@);
    let tp = crate::fstable::locate_template(table, base_dir, template_file, "items");
    let mut seen = false;
    let mut i: usize = 0;
    while i < visited.len()
        invariant
            i <= visited.len(),
            gvis == visited@.map_values(|p: FsPath| p@),
            gvis.len() == visited@.len(),
            seen ==> gvis.contains(tp@),
            !seen ==> forall|j: int| 0 <= j < i ==> gvis[j] != tp@,
        decreases visited.len() - i,
    {
        if visited[i].eq_path(&tp) {
            seen = true;
            proof {
                assert(gvis[i as int] == tp@);
            }
            i = visited.len();
        } else {
            i = i + 1;
        }
    }
    if seen {
        return Err(ItemResolveError::CircularReference { reference: template_file.to_owned() });
    }
    proof {
        assert(!gvis.contains(tp@));
    }
    if visited.len() >= crate::weapons::MAX_TEMPLATE_DEPTH {
        return Err(ItemResolveError::DepthExceeded);
    }
    let content = match table.lookup(&tp) {
        Some(c) => c,
        None => {
            let direct = base_dir.join_rel(template_file);
            let fallback = match base_dir.ancestor_up(2) {
                Some(packages_dir) => {
                    let fb = packages_dir.child("vanilla").child("items");
                    proof {
                        assert(crate::fstable::g_fallback_dir(base_dir@, "items"@) == Some(fb@));
                    }
                    Some(fb.join_rel(template_file))
                },
                None => None,
            };
            return Err(ItemResolveError::TemplateNotFound { direct, fallback });
        },
    };
    let root = match crate::markup::parse_document(content.as_str()) {
        Some(root) => root,
        None => {
            return Err(ItemResolveError::MalformedTemplate { path: tp });
        },
    };
    let current = visual_from_elem(&root);
    let parent_ref = match &current.template_file {
        Some(p) => p.clone(),
        None => {
            return Ok(current);
        },
    };
    let parent_dir = match tp.parent() {
        Some(d) => d,
        None => {
            return Err(ItemResolveError::NoParentDirectory { path: tp });
        },
    };
    let ghost gtp = tp@;
    let mut visited = visited;
    visited.push(tp);
    proof {
        assert(visited@.map_values(|p: FsPath| p@) =~= gvis.push(gtp));
    }
    match resolve_visual_item_template(table, &parent_dir, parent_ref.as_str(), visited) {
        Ok(parent) => Ok(merge_visual_item_attributes(parent, current)),
        Err(e) => Err(e),
    }
}

/// A modifier of the public item record.
pub struct ItemModifier {
    pub modifier_class: String,
    pub value: Option<String>,
    pub input_character_state: Option<String>,
    pub output_character_state: Option<String>,
    pub consumes_item: Option<bool>,
}

/// Ghost form of a public item modifier.
pub struct GItemMod {
    pub modifier_class: Seq<char>,
    pub value: Option<Seq<char>>,
    pub input_character_state: Option<Seq<char>>,
    pub output_character_state: Option<Seq<char>>,
    pub consumes_item: Option<bool>,
}

impl View for ItemModifier {
    type V = GItemMod;

    open spec fn view(&self) -> GItemMod {
        GItemMod {
            modifier_class: self.modifier_class@,
            value: opt_str(self.value),
            input_character_state: opt_str(self.input_character_state),
            output_character_state: opt_str(self.output_character_state),
            consumes_item: self.consumes_item,
        }
    }
}

/// The capacity block of the public item record.
pub struct ItemCapacity {
    pub value: Option<String>,
    pub source: Option<String>,
    pub source_value: Option<String>,
}

/// Ghost form of the public capacity block.
pub struct GItemCapacity {
    pub value: Option<Seq<char>>,
    pub source: Option<Seq<char>>,
    pub source_value: Option<Seq<char>>,
}

impl View for ItemCapacity {
    type V = GItemCapacity;

    open spec fn view(&self) -> GItemCapacity {
        GItemCapacity {
            value: opt_str(self.value),
            source: opt_str(self.source),
            source_value: opt_str(self.source_value),
        }
    }
}

/// The commonness block of the public item record.
pub struct ItemCommonness {
    pub value: Option<String>,
    pub in_stock: Option<bool>,
    pub can_respawn_with: Option<bool>,
}

/// Ghost form of the public commonness block.
pub struct GItemCommonness {
    pub value: Option<Seq<char>>,
    pub in_stock: Option<bool>,
    pub can_respawn_with: Option<bool>,
}

impl View for ItemCommonness {
    type V = GItemCommonness;

    open spec fn view(&self) -> GItemCommonness {
        GItemCommonness {
            value: opt_str(self.value),
            in_stock: self.in_stock,
            can_respawn_with: self.can_respawn_with,
        }
    }
}

/// The public item record (both carry and visual kinds). Numeric
/// attributes keep their attribute text.
pub struct Item {
    pub id: String,
    pub key: Option<String>,
    pub name: String,
    pub item_type: String,
    pub encumbrance: Option<String>,
    pub price: Option<String>,
    pub can_respawn_with: Option<bool>,
    pub in_stock: Option<bool>,
    pub file_path: String,
    pub source_file: String,
    pub source_directory: String,
    pub package_name: String,
    pub slot: Option<String>,
    pub transform_on_consume: Option<String>,
    pub time_to_live: Option<String>,
    pub draggable: Option<bool>,
    pub modifiers: Option<Vec<ItemModifier>>,
    pub hud_icon: Option<String>,
    pub model_filename: Option<String>,
    pub mesh_filenames: Option<Vec<String>>,
    pub effect_ref: Option<String>,
    pub capacity: Option<ItemCapacity>,
    pub commonness: Option<ItemCommonness>,
    pub template_error: Option<String>,
}

/// Ghost form of the public item record.
pub struct GItem {
    pub id: Seq<char>,
    pub key: Option<Seq<char>>,
    pub name: Seq<char>,
    pub item_type: Seq<char>,
    pub encumbrance: Option<Seq<char>>,
    pub price: Option<Seq<char>>,
    pub can_respawn_with: Option<bool>,
    pub in_stock: Option<bool>,
    pub file_path: Seq<char>,
    pub source_file: Seq<char>,
    pub source_directory: Seq<char>,
    pub package_name: Seq<char>,
    pub slot: Option<Seq<char>>,
    pub transform_on_consume: Option<Seq<char>>,
    pub time_to_live: Option<Seq<char>>,
    pub draggable: Option<bool>,
    pub modifiers: Option<Seq<GItemMod>>,
    pub hud_icon: Option<Seq<char>>,
    pub model_filename: Option<Seq<char>>,
    pub mesh_filenames: Option<Seq<Seq<char>>>,
    pub effect_ref: Option<Seq<char>>,
    pub capacity: Option<GItemCapacity>,
    pub commonness: Option<GItemCommonness>,
    pub template_error: Option<Seq<char>>,
}

impl View for Item {
    type V = GItem;

    open spec fn view(&self) -> GItem {
        GItem {
            id: self.id@,
            key: opt_str(self.key),
            name: self.name@,
            item_type: self.item_type@,
            encumbrance: opt_str(self.encumbrance),
            price: opt_str(self.price),
            can_respawn_with: self.can_respawn_with,
            in_stock: self.in_stock,
            file_path: self.file_path@,
            source_file: self.source_file@,
            source_directory: self.source_directory@,
            package_name: self.package_name@,
            slot: opt_str(self.slot),
            transform_on_consume: opt_str(self.transform_on_consume),
            time_to_live: opt_str(self.time_to_live),
            draggable: self.draggable,
            modifiers: match &self.modifiers {
                Some(v) => Some(v@.map_values(|m: ItemModifier| m@)),
                None => None,
            },
            hud_icon: opt_str(self.hud_icon),
            model_filename: opt_str(self.model_filename),
            mesh_filenames: match &self.mesh_filenames {
                Some(v) => Some(v@.map_values(|s: String| s@)),
                None => None,
            },
            effect_ref: opt_str(self.effect_ref),
            capacity: match self.capacity {
                Some(c) => Some(c@),
                None => None,
            },
            commonness: match self.commonness {
                Some(c) => Some(c@),
                None => None,
            },
            template_error: opt_str(self.template_error),
        }
    }
}

/// The single flag-text policy of the item fields: the trimmed text `1`
/// means yes; any other present text (an unknown string, `0` included)
/// means no. Absence is handled by the callers and stays absent.
pub open spec fn g_item_flag(s: Seq<char>) -> bool {
    crate::text::trimmed(s) == "1"@
}

/// Executable mirror of the item flag policy.
pub fn item_flag(s: &str) -> (r: bool)
    ensures
        r == g_item_flag(s@),
{
    let chars = crate::text::str_chars(s);
    let t = crate::text::trim_chars(&chars);
    let one = crate::text::str_chars("1");
    crate::text::chars_eq(&t, &one)
}

/// Reading of the draggable flag: the text as a small unsigned integer
/// (an optional `+`, then digits, at most 255), compared against one.
pub open spec fn g_u8_flag(s: Seq<char>) -> Option<bool> {
    let body = if s.len() > 0 && s[0] == '+' {
        s.subrange(1, s.len() as int)
    } else {
        s
    };
    if body.len() > 0 && crate::text::all_digits(body) && crate::text::digits_val(body) <= 255 {
        Some(crate::text::digits_val(body) == 1)
    } else {
        None
    }
}

/// Executable mirror of the draggable flag reading.
pub fn u8_flag(s: &str) -> (r: Option<bool>)
    ensures
        r == g_u8_flag(s@),
{
    let chars = crate::text::str_chars(s);
    let body = if chars.len() > 0 && chars[0] == '+' {
        crate::text::slice_chars(&chars, 1, chars.len())
    } else {
        proof {
            assert(chars@.subrange(0, chars@.len() as int) =~= chars@);
        }
        crate::text::slice_chars(&chars, 0, chars.len())
    };
    match crate::text::parse_u64_digits(&body) {
        Some(v) => {
            if v <= 255 {
                Some(v == 1)
            } else {
                None
            }
        },
        None => {
            proof {
                if body@.len() > 0 && crate::text::all_digits(body@) {
                    assert(crate::text::digits_val(body@) > u64::MAX);
                }
            }
            None
        },
    }
}

/// Reading of a boolean literal: exactly `true` or `false`.
pub open spec fn g_bool_lit(s: Seq<char>) -> Option<bool> {
    if s == "true"@ {
        Some(true)
    } else if s == "false"@ {
        Some(false)
    } else {
        None
    }
}

/// Executable mirror of the boolean-literal reading.
pub fn bool_lit(s: &str) -> (r: Option<bool>)
    ensures
        r == g_bool_lit(s@),
{
    if crate::text::str_eq(s, "true") {
        Some(true)
    } else if crate::text::str_eq(s, "false") {
        Some(false)
    } else {
        None
    }
}

/// The package name of an item file: the segment above the scan root,
/// `unknown` when the root does not lead the path or is too shallow.
pub open spec fn g_item_pkg_name(path: Seq<Seq<char>>, input: Seq<Seq<char>>) -> Seq<char> {
    if crate::fspath::is_path_prefix(input, path) && input.len() >= 2 {
        input[input.len() - 2]
    } else {
        "unknown"@
    }
}

/// The file stem of the last segment, or the empty text for the root.
pub open spec fn g_stem_or_empty(path: Seq<Seq<char>>) -> Seq<char> {
    if path.len() > 0 {
        crate::fspath::g_stem(path.last())
    } else {
        Seq::empty()
    }
}

/// The mesh filenames declared by the visual models, in order.
pub open spec fn g_mesh_names(models: Seq<GVisualModel>) -> Seq<Seq<char>>
    decreases models.len(),
{
    if models.len() == 0 {
        Seq::empty()
    } else {
        let r = g_mesh_names(models.drop_last());
        match models.last().mesh_filename {
            Some(f) => r.push(f),
            None => r,
        }
    }
}

/// The public modifiers derived from a carry bag's modifiers.
pub open spec fn g_out_mods(ms: Seq<GItemModifier>) -> Seq<GItemMod> {
    ms.map_values(
        |m: GItemModifier| GItemMod {
            modifier_class: crate::weapons::g_or_empty(m.class),
            value: m.value,
            input_character_state: m.input_character_state,
            output_character_state: m.output_character_state,
            consumes_item: match m.consumes_item {
                Some(s) => g_bool_lit(s),
                None => None,
            },
        },
    )
}

/// The resolution step of one carry entry at position `idx`.
pub open spec fn g_resolved_carry(
    t: Seq<crate::fstable::GFile>,
    path: Seq<Seq<char>>,
    raw: GCarryItem,
    idx: int,
) -> (GCarryItem, Option<Seq<char>>) {
    match raw.template_file {
        None => (raw, None),
        Some(tref) => match g_resolve_carry(
            t,
            path.drop_last(),
            tref,
            raw.key,
            idx,
            Seq::empty(),
        ) {
            Ok(parent) => (g_merge_carry(parent, raw), None),
            Err(e) => (raw, Some("Template resolution failed: "@ + g_item_error_message("carry_item"@, e))),
        },
    }
}

/// Identity law: a carry entry that declares no template reference
/// resolves to itself, unchanged and without an error note.
pub proof fn lemma_carry_no_template_identity(
    t: Seq<crate::fstable::GFile>,
    path: Seq<Seq<char>>,
    raw: GCarryItem,
    idx: int,
)
    requires
        raw.template_file is None,
    ensures
        g_resolved_carry(t, path, raw, idx) == (raw, None::<Seq<char>>),
{
}

/// The public record of one carry entry.
pub open spec fn g_carry_record(
    path: Seq<Seq<char>>,
    input: Seq<Seq<char>>,
    base_id: Seq<char>,
    srcdir: Seq<char>,
    idx: int,
    bag: GCarryItem,
    terr: Option<Seq<char>>,
) -> GItem {
    GItem {
        id: base_id + "_"@ + crate::text::dec_of(idx as nat),
        key: match bag.key {
            Some(k) => Some(k),
            None => Some(g_stem_or_empty(path) + "_"@ + crate::text::dec_of(idx as nat)),
        },
        name: crate::weapons::g_or_empty(bag.name),
        item_type: "carry_item"@,
        encumbrance: match bag.inventory {
            Some(i) => i.encumbrance,
            None => None,
        },
        price: match bag.inventory {
            Some(i) => i.price,
            None => None,
        },
        can_respawn_with: match bag.commonness {
            Some(c) => match c.can_respawn_with {
                Some(s) => Some(g_item_flag(s)),
                None => None,
            },
            None => None,
        },
        in_stock: match bag.commonness {
            Some(c) => match c.in_stock {
                Some(s) => Some(g_item_flag(s)),
                None => None,
            },
            None => None,
        },
        file_path: g_rel_path(path, input),
        source_file: crate::fspath::abs_display(path),
        source_directory: srcdir,
        package_name: g_item_pkg_name(path, input),
        slot: bag.slot,
        transform_on_consume: bag.transform_on_consume,
        time_to_live: bag.time_to_live,
        draggable: match bag.draggable {
            Some(s) => g_u8_flag(s),
            None => None,
        },
        modifiers: Some(g_out_mods(bag.modifiers)),
        hud_icon: match bag.hud_icon {
            Some(h) => h.filename,
            None => None,
        },
        model_filename: match bag.model {
            Some(m) => m.mesh_filename,
            None => None,
        },
        mesh_filenames: None,
        effect_ref: None,
        capacity: if bag.capacities.len() > 0 {
            Some(
                GItemCapacity {
                    value: bag.capacities[0].value,
                    source: bag.capacities[0].source,
                    source_value: bag.capacities[0].source_value,
                },
            )
        } else {
            None
        },
        commonness: match bag.commonness {
            Some(c) => Some(
                GItemCommonness {
                    value: c.value,
                    in_stock: match c.in_stock {
                        Some(s) => Some(g_item_flag(s)),
                        None => None,
                    },
                    can_respawn_with: match c.can_respawn_with {
                        Some(s) => Some(g_item_flag(s)),
                        None => None,
                    },
                },
            ),
            None => None,
        },
        template_error: terr,
    }
}

/// The records of the first `n` carry entries of one file.
pub open spec fn g_carry_fold(
    t: Seq<crate::fstable::GFile>,
    path: Seq<Seq<char>>,
    input: Seq<Seq<char>>,
    base_id: Seq<char>,
    srcdir: Seq<char>,
    entries: Seq<GCarryItem>,
    n: int,
) -> Seq<GItem>
    decreases n,
{
    if n <= 0 {
        Seq::empty()
    } else {
        let idx = n - 1;
        let (bag, terr) = g_resolved_carry(t, path, entries[idx], idx);
        g_carry_fold(t, path, input, base_id, srcdir, entries, n - 1).push(
            g_carry_record(path, input, base_id, srcdir, idx, bag, terr),
        )
    }
}

/// Processing of one carry-item file: every entry yields one record,
/// resolved against its own template chain; a broken chain annotates the
/// record instead of dropping it.
pub open spec fn g_parse_carry_file(
    t: Seq<crate::fstable::GFile>,
    path: Seq<Seq<char>>,
    input: Seq<Seq<char>>,
    base_id: Seq<char>,
    srcdir: Seq<char>,
) -> Result<Seq<GItem>, Seq<char>> {
    match crate::fstable::g_lookup(t, path) {
        None => Err("Failed to read file: "@ + crate::fspath::abs_display(path)),
        Some(content) => match crate::markup::sp_document(content) {
            None => Err("XML parse error: "@ + crate::fspath::abs_display(path)),
            Some(root) => {
                let entries = g_carry_entries(root.children);
                if entries.len() == 0 {
                    Err("XML parse error: "@ + crate::fspath::abs_display(path))
                } else if path.len() == 0 {
                    Err("Cannot get parent directory of carry_item file"@)
                } else {
                    Ok(
                        g_carry_fold(
                            t,
                            path,
                            input,
                            base_id,
                            srcdir,
                            entries,
                            entries.len() as int,
                        ),
                    )
                }
            },
        },
    }
}

/// Renders `base + "_" + idx`.
fn indexed_id(base: &str, idx: usize) -> (r: String)
    ensures
        r@ == base@ + "_"@ + crate::text::dec_of(idx as nat),
{
    let mut out: Vec<char> = Vec::new();
    push_str_chars(&mut out, base);
    push_str_chars(&mut out, "_");
    push_dec(&mut out, idx);
    proof {
        assert(Seq::<char>::empty() + base@ =~= base@);
    }
    crate::text::chars_to_string(&out)
}

/// Parses one carry-item file into its records, one per entry.
pub fn parse_carry_item(
    table: &crate::fstable::FileTable,
    path: &FsPath,
    input_path: &FsPath,
    base_id: String,
    source_directory: &str,
) -> (r: Result<Vec<Item>, String>)
    ensures
        match r {
            Ok(items) => g_parse_carry_file(
                table@,
                path@,
                input_path@,
                base_id@,
                source_directory@,
            ) == Ok::<Seq<GItem>, Seq<char>>(items@.map_values(|x: Item| x@)),
            Err(m) => g_parse_carry_file(
                table@,
                path@,
                input_path@,
                base_id@,
                source_directory@,
            ) == Err::<Seq<GItem>, Seq<char>>(m@),
        },
{
    let content = match table.lookup(path) {
        Some(c) => c,
        None => {
            return Err(path_message("Failed to read file: ", path));
        },
    };
    let root = match crate::markup::parse_document(content.as_str()) {
        Some(root) => root,
        None => {
            return Err(path_message("XML parse error: ", path));
        },
    };
    let entries = carry_entries_of(&root);
    if entries.len() == 0 {
        return Err(path_message("XML parse error: ", path));
    }
    let parent_dir = match path.parent() {
        Some(d) => d,
        None => {
            return Err(String::from_str("Cannot get parent directory of carry_item file"));
        },
    };
    let ghost gentries = entries@.map_values(|c: RawCarryItem| c@);
    let mut items: Vec<Item> = Vec::new();
    let mut i: usize = 0;
    proof {
        assert(items@.map_values(|x: Item| x@) =~= Seq::<GItem>::empty());
    }
    while i < entries.len()
        invariant
            i <= entries.len(),
            gentries == entries@.map_values(|c: RawCarryItem| c@),
            gentries.len() == entries@.len(),
            path@.len() > 0,
            parent_dir@ == path@.drop_last(),
            items@.map_values(|x: Item| x@) == g_carry_fold(
                table@,
                path@,
                input_path@,
                base_id@,
                source_directory@,
                gentries,
                i as int,
            ),
        decreases entries.len() - i,
    {
        let raw = duplicate_carry(&entries[i]);
        let ghost graw = raw@;
        proof {
            assert(graw == gentries[i as int]);
        }
        // resolve this entry's template chain, keeping the raw bag and a
        // note when the chain is broken
        let mut template_error: Option<String> = None;
        let bag: RawCarryItem;
        match &raw.template_file {
            Some(tref) => {
                let tref = tref.clone();
                let selector = CarryTemplateSelector { key: clone_opt(&raw.key), index: i };
                let fresh_visited: Vec<FsPath> = Vec::new();
                proof {
                    assert(fresh_visited@.map_values(|p: FsPath| p@)
                        =~= Seq::<Seq<Seq<char>>>::empty());
                }
                match resolve_carry_item_template(
                    table,
                    &parent_dir,
                    tref.as_str(),
                    &selector,
                    fresh_visited,
                ) {
                    Ok(parent) => {
                        bag = merge_carry_item_attributes(parent, raw);
                    },
                    Err(e) => {
                        let mut out: Vec<char> = Vec::new();
                        push_str_chars(&mut out, "Template resolution failed: ");
                        let m = e.message("carry_item");
                        push_str_chars(&mut out, m.as_str());
                        proof {
                            assert(Seq::<char>::empty() + "Template resolution failed: "@
                                =~= "Template resolution failed: "@);
                        }
                        template_error = Some(crate::text::chars_to_string(&out));
                        bag = raw;
                    },
                }
            },
            None => {
                bag = raw;
            },
        }
        let item = carry_record(path, input_path, base_id.as_str(), source_directory, i, bag,
            template_error);
        let ghost m0 = items@.map_values(|x: Item| x@);
        items.push(item);
        proof {
            assert(items@.map_values(|x: Item| x@) =~= m0.push(items@.last()@));
        }
        i = i + 1;
    }
    proof {
        assert(gentries.len() == entries@.len());
    }
    Ok(items)
}

/// An identical copy of a carry bag.
fn duplicate_carry(c: &RawCarryItem) -> (r: RawCarryItem)
    ensures
        r@ == c@,
{
    let mut capacities: Vec<RawCapacity> = Vec::new();
    let mut i: usize = 0;
    while i < c.capacities.len()
        invariant
            i <= c.capacities.len(),
            capacities@.len() == i,
            forall|j: int| 0 <= j < i ==> capacities@[j]@ == c.capacities@[j]@,
        decreases c.capacities.len() - i,
    {
        capacities.push(
            RawCapacity {
                value: clone_opt(&c.capacities[i].value),
                source: clone_opt(&c.capacities[i].source),
                source_value: clone_opt(&c.capacities[i].source_value),
            },
        );
        i = i + 1;
    }
    let mut modifiers: Vec<RawItemModifier> = Vec::new();
    let mut i2: usize = 0;
    while i2 < c.modifiers.len()
        invariant
            i2 <= c.modifiers.len(),
            modifiers@.len() == i2,
            forall|j: int| 0 <= j < i2 ==> modifiers@[j]@ == c.modifiers@[j]@,
        decreases c.modifiers.len() - i2,
    {
        modifiers.push(
            RawItemModifier {
                class: clone_opt(&c.modifiers[i2].class),
                value: clone_opt(&c.modifiers[i2].value),
                input_character_state: clone_opt(&c.modifiers[i2].input_character_state),
                output_character_state: clone_opt(&c.modifiers[i2].output_character_state),
                consumes_item: clone_opt(&c.modifiers[i2].consumes_item),
            },
        );
        i2 = i2 + 1;
    }
    let r = RawCarryItem {
        key: clone_opt(&c.key),
        template_file: clone_opt(&c.template_file),
        name: clone_opt(&c.name),
        slot: clone_opt(&c.slot),
        transform_on_consume: clone_opt(&c.transform_on_consume),
        time_to_live: clone_opt(&c.time_to_live),
        draggable: clone_opt(&c.draggable),
        hud_icon: match &c.hud_icon {
            Some(h) => Some(RawHudIcon { filename: clone_opt(&h.filename) }),
            None => None,
        },
        capacities,
        inventory: match &c.inventory {
            Some(v) => Some(
                RawInventory {
                    encumbrance: clone_opt(&v.encumbrance),
                    price: clone_opt(&v.price),
                },
            ),
            None => None,
        },
        commonness: match &c.commonness {
            Some(v) => Some(
                RawCommonness {
                    value: clone_opt(&v.value),
                    in_stock: clone_opt(&v.in_stock),
                    can_respawn_with: clone_opt(&v.can_respawn_with),
                },
            ),
            None => None,
        },
        modifiers,
        model: match &c.model {
            Some(m) => Some(RawModel { mesh_filename: clone_opt(&m.mesh_filename) }),
            None => None,
        },
    };
    proof {
        assert(r@.capacities =~= c@.capacities);
        assert(r@.modifiers =~= c@.modifiers);
        assert(r@ == c@);
    }
    r
}

/// Builds the public record of one carry entry.
fn carry_record(
    path: &FsPath,
    input_path: &FsPath,
    base_id: &str,
    source_directory: &str,
    idx: usize,
    bag: RawCarryItem,
    template_error: Option<String>,
) -> (r: Item)
    ensures
        r@ == g_carry_record(
            path@,
            input_path@,
            base_id@,
            source_directory@,
            idx as int,
            bag@,
            opt_str(template_error),
        ),
{
    let ghost gbag = bag@;
    let id = indexed_id(base_id, idx);
    let key: Option<String> = match &bag.key {
        Some(k) => Some(k.clone()),
        None => {
            let stem: String = match path.file_stem() {
                Some(s) => s,
                None => String::new(),
            };
            proof {
                assert(stem@ == g_stem_or_empty(path@));
            }
            Some(indexed_id(stem.as_str(), idx))
        },
    };
    let name: String = match &bag.name {
        Some(s) => s.clone(),
        None => String::new(),
    };
    let can_respawn_with: Option<bool> = match &bag.commonness {
        Some(c) => match &c.can_respawn_with {
            Some(s) => Some(item_flag(s.as_str())),
            None => None,
        },
        None => None,
    };
    let in_stock: Option<bool> = match &bag.commonness {
        Some(c) => match &c.in_stock {
            Some(s) => Some(item_flag(s.as_str())),
            None => None,
        },
        None => None,
    };
    let draggable: Option<bool> = match &bag.draggable {
        Some(s) => u8_flag(s.as_str()),
        None => None,
    };
    // public modifiers
    let mut mods: Vec<ItemModifier> = Vec::new();
    let mut i: usize = 0;
    proof {
        assert(mods@.map_values(|m: ItemModifier| m@) =~= g_out_mods(
            gbag.modifiers.subrange(0, 0),
        ));
    }
    while i < bag.modifiers.len()
        invariant
            i <= bag.modifiers.len(),
            gbag == bag@,
            gbag.modifiers.len() == bag.modifiers@.len(),
            mods@.map_values(|m: ItemModifier| m@) =~= g_out_mods(
                gbag.modifiers.subrange(0, i as int),
            ),
        decreases bag.modifiers.len() - i,
    {
        let m = &bag.modifiers[i];
        let modifier_class: String = match &m.class {
            Some(s) => s.clone(),
            None => String::new(),
        };
        let consumes_item: Option<bool> = match &m.consumes_item {
            Some(s) => bool_lit(s.as_str()),
            None => None,
        };
        mods.push(
            ItemModifier {
                modifier_class,
                value: clone_opt(&m.value),
                input_character_state: clone_opt(&m.input_character_state),
                output_character_state: clone_opt(&m.output_character_state),
                consumes_item,
            },
        );
        proof {
            assert(g_out_mods(gbag.modifiers.subrange(0, i as int + 1)) =~= g_out_mods(
                gbag.modifiers.subrange(0, i as int),
            ).push(g_out_mods(gbag.modifiers)[i as int]));
            assert(mods@.map_values(|m: ItemModifier| m@) =~= g_out_mods(
                gbag.modifiers.subrange(0, i as int + 1),
            ));
        }
        i = i + 1;
    }
    proof {
        assert(gbag.modifiers.subrange(0, gbag.modifiers.len() as int) =~= gbag.modifiers);
    }
    let capacity: Option<ItemCapacity> = if bag.capacities.len() > 0 {
        Some(
            ItemCapacity {
                value: clone_opt(&bag.capacities[0].value),
                source: clone_opt(&bag.capacities[0].source),
                source_value: clone_opt(&bag.capacities[0].source_value),
            },
        )
    } else {
        None
    };
    let commonness: Option<ItemCommonness> = match &bag.commonness {
        Some(c) => Some(
            ItemCommonness {
                value: clone_opt(&c.value),
                in_stock: match &c.in_stock {
                    Some(s) => Some(item_flag(s.as_str())),
                    None => None,
                },
                can_respawn_with: match &c.can_respawn_with {
                    Some(s) => Some(item_flag(s.as_str())),
                    None => None,
                },
            },
        ),
        None => None,
    };
    let file_path: String = match path.strip_prefix(input_path) {
        Some(rest) => rest.to_string_rel(),
        None => path.to_string_rel(),
    };
    let package_name: String = if path.starts_with(input_path) && input_path.depth() >= 2 {
        input_path.segments[input_path.segments.len() - 2].clone()
    } else {
        String::from_str("unknown")
    };
    let item = Item {
        id,
        key,
        name,
        item_type: String::from_str("carry_item"),
        encumbrance: match &bag.inventory {
            Some(v) => clone_opt(&v.encumbrance),
            None => None,
        },
        price: match &bag.inventory {
            Some(v) => clone_opt(&v.price),
            None => None,
        },
        can_respawn_with,
        in_stock,
        file_path,
        source_file: path.to_string_abs(),
        source_directory: source_directory.to_owned(),
        package_name,
        slot: clone_opt(&bag.slot),
        transform_on_consume: clone_opt(&bag.transform_on_consume),
        time_to_live: clone_opt(&bag.time_to_live),
        draggable,
        modifiers: Some(mods),
        hud_icon: match &bag.hud_icon {
            Some(h) => clone_opt(&h.filename),
            None => None,
        },
        model_filename: match &bag.model {
            Some(m) => clone_opt(&m.mesh_filename),
            None => None,
        },
        mesh_filenames: None,
        effect_ref: None,
        capacity,
        commonness,
        template_error,
    };
    proof {
        assert(item@.package_name == g_item_pkg_name(path@, input_path@));
        assert(item@ == g_carry_record(path@, input_path@, base_id@, source_directory@,
            idx as int, gbag, opt_str(item.template_error)));
    }
    item
}

/// The public record of one visual item.
pub open spec fn g_visual_record(
    path: Seq<Seq<char>>,
    input: Seq<Seq<char>>,
    id: Seq<char>,
    srcdir: Seq<char>,
    bag: GVisualItem,
    terr: Option<Seq<char>>,
) -> GItem {
    GItem {
        id: id,
        key: Some(g_stem_or_empty(path)),
        name: g_stem_or_empty(path),
        item_type: "visual_item"@,
        encumbrance: None,
        price: None,
        can_respawn_with: None,
        in_stock: None,
        file_path: g_rel_path(path, input),
        source_file: crate::fspath::abs_display(path),
        source_directory: srcdir,
        package_name: g_item_pkg_name(path, input),
        slot: None,
        transform_on_consume: None,
        time_to_live: None,
        draggable: None,
        modifiers: None,
        hud_icon: None,
        model_filename: None,
        mesh_filenames: Some(g_mesh_names(bag.models)),
        effect_ref: match bag.effect {
            Some(e) => e.effect_ref,
            None => None,
        },
        capacity: None,
        commonness: None,
        template_error: terr,
    }
}

/// Processing of one visual-item file.
pub open spec fn g_parse_visual_file(
    t: Seq<crate::fstable::GFile>,
    path: Seq<Seq<char>>,
    input: Seq<Seq<char>>,
    id: Seq<char>,
    srcdir: Seq<char>,
) -> Result<GItem, Seq<char>> {
    match crate::fstable::g_lookup(t, path) {
        None => Err("Failed to read file: "@ + crate::fspath::abs_display(path)),
        Some(content) => match crate::markup::sp_document(content) {
            None => Err("XML parse error: "@ + crate::fspath::abs_display(path)),
            Some(root) => {
                let raw = g_visual_of(root);
                match raw.template_file {
                    None => Ok(g_visual_record(path, input, id, srcdir, raw, None)),
                    Some(tref) => if path.len() == 0 {
                        Err("Cannot get parent directory of visual_item file"@)
                    } else {
                        match g_resolve_visual(t, path.drop_last(), tref, Seq::empty()) {
                            Ok(parent) => Ok(
                                g_visual_record(
                                    path,
                                    input,
                                    id,
                                    srcdir,
                                    g_merge_visual(parent, raw),
                                    None,
                                ),
                            ),
                            Err(e) => Ok(
                                g_visual_record(
                                    path,
                                    input,
                                    id,
                                    srcdir,
                                    raw,
                                    Some(
                                        "Template resolution failed: "@ + g_item_error_message(
                                            "visual_item"@,
                                            e,
                                        ),
                                    ),
                                ),
                            ),
                        }
                    },
                }
            },
        },
    }
}

/// Parses one visual-item file into its record.
pub fn parse_visual_item(
    table: &crate::fstable::FileTable,
    path: &FsPath,
    input_path: &FsPath,
    id: String,
    source_directory: &str,
) -> (r: Result<Item, String>)
    ensures
        match r {
            Ok(item) => g_parse_visual_file(
                table@,
                path@,
                input_path@,
                id@,
                source_directory@,
            ) == Ok::<GItem, Seq<char>>(item@),
            Err(m) => g_parse_visual_file(table@, path@, input_path@, id@, source_directory@)
                == Err::<GItem, Seq<char>>(m@),
        },
{
    let content = match table.lookup(path) {
        Some(c) => c,
        None => {
            return Err(path_message("Failed to read file: ", path));
        },
    };
    let root = match crate::markup::parse_document(content.as_str()) {
        Some(root) => root,
        None => {
            return Err(path_message("XML parse error: ", path));
        },
    };
    let raw = visual_from_elem(&root);
    let mut template_error: Option<String> = None;
    let bag: RawVisualItem;
    match &raw.template_file {
        Some(tref) => {
            let parent_dir = match path.parent() {
                Some(d) => d,
                None => {
                    return Err(
                        String::from_str("Cannot get parent directory of visual_item file"),
                    );
                },
            };
            let tref = tref.clone();
            let fresh_visited: Vec<FsPath> = Vec::new();
            proof {
                assert(fresh_visited@.map_values(|p: FsPath| p@)
                    =~= Seq::<Seq<Seq<char>>>::empty());
            }
            match resolve_visual_item_template(table, &parent_dir, tref.as_str(), fresh_visited) {
                Ok(parent) => {
                    bag = merge_visual_item_attributes(parent, raw);
                },
                Err(e) => {
                    let mut out: Vec<char> = Vec::new();
                    push_str_chars(&mut out, "Template resolution failed: ");
                    let m = e.message("visual_item");
                    push_str_chars(&mut out, m.as_str());
                    proof {
                        assert(Seq::<char>::empty() + "Template resolution failed: "@
                            =~= "Template resolution failed: "@);
                    }
                    template_error = Some(crate::text::chars_to_string(&out));
                    bag = raw;
                },
            }
        },
        None => {
            bag = raw;
        },
    }
    let ghost gbag = bag@;
    let stem: String = match path.file_stem() {
        Some(s) => s,
        None => String::new(),
    };
    proof {
        assert(stem@ == g_stem_or_empty(path@));
    }
    // mesh filenames declared by the models
    let mut meshes: Vec<String> = Vec::new();
    let mut i: usize = 0;
    proof {
        assert(meshes@.map_values(|s: String| s@) =~= g_mesh_names(gbag.models.subrange(0, 0)));
    }
    while i < bag.models.len()
        invariant
            i <= bag.models.len(),
            gbag == bag@,
            gbag.models.len() == bag.models@.len(),
            meshes@.map_values(|s: String| s@) =~= g_mesh_names(gbag.models.subrange(0, i as int)),
        decreases bag.models.len() - i,
    {
        let ghost pre = gbag.models.subrange(0, i as int);
        let ghost post = gbag.models.subrange(0, i as int + 1);
        proof {
            assert(post.drop_last() =~= pre);
            assert(post.last() == gbag.models[i as int]);
        }
        match &bag.models[i].mesh_filename {
            Some(f) => {
                let ghost m0 = meshes@.map_values(|s: String| s@);
                meshes.push(f.clone());
                proof {
                    assert(meshes@.map_values(|s: String| s@) =~= m0.push(
                        gbag.models[i as int].mesh_filename->Some_0,
                    ));
                }
            },
            None => {},
        }
        i = i + 1;
    }
    proof {
        assert(gbag.models.subrange(0, gbag.models.len() as int) =~= gbag.models);
    }
    let file_path: String = match path.strip_prefix(input_path) {
        Some(rest) => rest.to_string_rel(),
        None => path.to_string_rel(),
    };
    let package_name: String = if path.starts_with(input_path) && input_path.depth() >= 2 {
        input_path.segments[input_path.segments.len() - 2].clone()
    } else {
        String::from_str("unknown")
    };
    let item = Item {
        id,
        key: Some(stem.clone()),
        name: stem,
        item_type: String::from_str("visual_item"),
        encumbrance: None,
        price: None,
        can_respawn_with: None,
        in_stock: None,
        file_path,
        source_file: path.to_string_abs(),
        source_directory: source_directory.to_owned(),
        package_name,
        slot: None,
        transform_on_consume: None,
        time_to_live: None,
        draggable: None,
        modifiers: None,
        hud_icon: None,
        model_filename: None,
        mesh_filenames: Some(meshes),
        effect_ref: match &bag.effect {
            Some(e) => clone_opt(&e.effect_ref),
            None => None,
        },
        capacity: None,
        commonness: None,
        template_error,
    };
    proof {
        assert(item@ == g_visual_record(path@, input_path@, id@, source_directory@, gbag,
            opt_str(item.template_error)));
    }
    Ok(item)
}

/// One scan root with its reported existence.
pub struct RootProbe {
    pub path: FsPath,
    pub exists: bool,
}

/// Ghost form of a root probe.
pub struct GRootProbe {
    pub path: Seq<Seq<char>>,
    pub exists: bool,
}

impl View for RootProbe {
    type V = GRootProbe;

    open spec fn view(&self) -> GRootProbe {
        GRootProbe { path: self.path@, exists: self.exists }
    }
}

/// One per-file failure reported by an item scan.
pub struct ScanError {
    pub file: String,
    pub error: String,
    pub severity: String,
}

/// Ghost form of an item scan failure.
pub struct GItemScanError {
    pub file: Seq<char>,
    pub error: Seq<char>,
    pub severity: Seq<char>,
}

impl View for ScanError {
    type V = GItemScanError;

    open spec fn view(&self) -> GItemScanError {
        GItemScanError { file: self.file@, error: self.error@, severity: self.severity@ }
    }
}

/// The aggregate result of one item scan.
pub struct ItemScanResult {
    pub items: Vec<Item>,
    pub errors: Vec<ScanError>,
    pub duplicate_keys: Vec<String>,
    pub scan_time: u64,
}

/// Ghost form of the aggregate item result.
pub struct GItemScanResult {
    pub items: Seq<GItem>,
    pub errors: Seq<GItemScanError>,
    pub duplicate_keys: Seq<Seq<char>>,
    pub scan_time: u64,
}

impl View for ItemScanResult {
    type V = GItemScanResult;

    open spec fn view(&self) -> GItemScanResult {
        GItemScanResult {
            items: self.items@.map_values(|x: Item| x@),
            errors: self.errors@.map_values(|e: ScanError| e@),
            duplicate_keys: self.duplicate_keys@.map_values(|s: String| s@),
            scan_time: self.scan_time,
        }
    }
}

/// One discovered definition file together with the root it was found
/// under.
pub struct Discovered {
    pub root: FsPath,
    pub path: FsPath,
}

/// Ghost form of a discovered file.
pub struct GDiscovered {
    pub root: Seq<Seq<char>>,
    pub path: Seq<Seq<char>>,
}

impl View for Discovered {
    type V = GDiscovered;

    open spec fn view(&self) -> GDiscovered {
        GDiscovered { root: self.root@, path: self.path@ }
    }
}

/// Whether a file name carries one of the item definition extensions.
pub open spec fn g_item_ext_ok(name: Seq<char>) -> bool {
    crate::fspath::g_ext(name) == Some("carry_item"@) || crate::fspath::g_ext(name) == Some(
        "visual_item"@,
    )
}

/// The snapshot's item definition files under `root`, in snapshot order.
pub open spec fn g_discover_in_root(t: Seq<crate::fstable::GFile>, root: Seq<Seq<char>>) -> Seq<
    GDiscovered,
>
    decreases t.len(),
{
    if t.len() == 0 {
        Seq::empty()
    } else {
        let r = g_discover_in_root(t.drop_last(), root);
        let f = t.last();
        if crate::fspath::is_path_prefix(root, f.path) && f.path.len() > 0 && g_item_ext_ok(
            f.path.last(),
        ) {
            r.push(GDiscovered { root: root, path: f.path })
        } else {
            r
        }
    }
}

/// The item definition files under every existing root, roots in order.
pub open spec fn g_discover_items(
    t: Seq<crate::fstable::GFile>,
    probes: Seq<GRootProbe>,
) -> Seq<GDiscovered>
    decreases probes.len(),
{
    if probes.len() == 0 {
        Seq::empty()
    } else {
        g_discover_items(t, probes.drop_last()) + (if probes.last().exists {
            g_discover_in_root(t, probes.last().path)
        } else {
            Seq::empty()
        })
    }
}

/// Finds every item definition file under the existing roots.
pub fn discover_items(table: &crate::fstable::FileTable, probes: &Vec<RootProbe>) -> (r: Vec<
    Discovered,
>)
    ensures
        r@.map_values(|d: Discovered| d@) == g_discover_items(
            table@,
            probes@.map_values(|p: RootProbe| p@),
        ),
        forall|j: int| 0 <= j < r@.len() ==> (#[trigger] r@[j])@.path.len() > 0,
{
    let ghost gprobes = probes@.map_values(|p: RootProbe| p@);
    let mut r: Vec<Discovered> = Vec::new();
    let mut pi: usize = 0;
    proof {
        assert(gprobes.subrange(0, 0) =~= Seq::<GRootProbe>::empty());
        assert(r@.map_values(|d: Discovered| d@) =~= Seq::<GDiscovered>::empty());
    }
    while pi < probes.len()
        invariant
            pi <= probes.len(),
            gprobes == probes@.map_values(|p: RootProbe| p@),
            gprobes.len() == probes@.len(),
            r@.map_values(|d: Discovered| d@) == g_discover_items(
                table@,
                gprobes.subrange(0, pi as int),
            ),
            forall|j: int| 0 <= j < r@.len() ==> (#[trigger] r@[j])@.path.len() > 0,
        decreases probes.len() - pi,
    {
        let ghost ppre = gprobes.subrange(0, pi as int);
        let ghost ppost = gprobes.subrange(0, pi as int + 1);
        proof {
            assert(ppost.drop_last() =~= ppre);
            assert(ppost.last() == gprobes[pi as int]);
        }
        if probes[pi].exists {
            let root = &probes[pi].path;
            let ghost gt = table@;
            let mut i: usize = 0;
            let ghost r0 = r@.map_values(|d: Discovered| d@);
            proof {
                assert(gt.subrange(0, 0) =~= Seq::<crate::fstable::GFile>::empty());
                assert(r0 + g_discover_in_root(gt.subrange(0, 0), root@) =~= r0);
            }
            while i < table.files.len()
                invariant
                    i <= table.files.len(),
                    gt == table@,
                    gt.len() == table.files@.len(),
                    r0 == ppre_discovered(gprobes, pi as int, table@),
                    r@.map_values(|d: Discovered| d@) == r0 + g_discover_in_root(
                        gt.subrange(0, i as int),
                        root@,
                    ),
                    forall|j: int| 0 <= j < r@.len() ==> (#[trigger] r@[j])@.path.len() > 0,
                decreases table.files.len() - i,
            {
                let ghost pre = gt.subrange(0, i as int);
                let ghost post = gt.subrange(0, i as int + 1);
                proof {
                    assert(post.drop_last() =~= pre);
                    assert(post.last() == gt[i as int]);
                }
                let entry = &table.files[i];
                let ext_ok = entry.path.has_extension("carry_item") || entry.path.has_extension(
                    "visual_item",
                );
                if entry.path.starts_with(root) && ext_ok {
                    let ghost m0 = r@.map_values(|d: Discovered| d@);
                    r.push(Discovered { root: root.duplicate(), path: entry.path.duplicate() });
                    proof {
                        assert(r@.map_values(|d: Discovered| d@) =~= m0.push(
                            GDiscovered { root: root@, path: gt[i as int].path },
                        ));
                    }
                }
                i = i + 1;
            }
            proof {
                assert(gt.subrange(0, gt.len() as int) =~= gt);
            }
        }
        proof {
            assert(r@.map_values(|d: Discovered| d@) =~= g_discover_items(table@, ppost));
        }
        pi = pi + 1;
    }
    proof {
        assert(gprobes.subrange(0, gprobes.len() as int) =~= gprobes);
    }
    r
}

/// The files discovered under the first `pi` probes.
pub open spec fn ppre_discovered(
    gprobes: Seq<GRootProbe>,
    pi: int,
    t: Seq<crate::fstable::GFile>,
) -> Seq<GDiscovered> {
    g_discover_items(t, gprobes.subrange(0, pi))
}

/// Whether any probed root exists.
pub open spec fn g_any_exists(probes: Seq<GRootProbe>) -> bool {
    exists|i: int| 0 <= i < probes.len() && probes[i].exists
}

/// The probed paths' displays joined with a comma and a space.
pub open spec fn g_probes_joined(probes: Seq<GRootProbe>) -> Seq<char>
    decreases probes.len(),
{
    if probes.len() == 0 {
        Seq::empty()
    } else if probes.len() == 1 {
        crate::fspath::abs_display(probes[0].path)
    } else {
        g_probes_joined(probes.drop_last()) + ", "@ + crate::fspath::abs_display(
            probes.last().path,
        )
    }
}

/// The no-root failure message of an item scan.
pub open spec fn g_no_root_message(probes: Seq<GRootProbe>) -> Seq<char> {
    "Directory not found (tried: "@ + g_probes_joined(probes) + ")"@
}

/// Renders the no-root failure message.
fn no_root_message(probes: &Vec<RootProbe>) -> (r: String)
    ensures
        r@ == g_no_root_message(probes@.map_values(|p: RootProbe| p@)),
{
    let ghost gprobes = probes@.map_values(|p: RootProbe| p@);
    let mut out: Vec<char> = Vec::new();
    push_str_chars(&mut out, "Directory not found (tried: ");
    let ghost head = "Directory not found (tried: "@;
    let mut i: usize = 0;
    proof {
        assert(Seq::<char>::empty() + head =~= head);
        assert(gprobes.subrange(0, 0) =~= Seq::<GRootProbe>::empty());
    }
    while i < probes.len()
        invariant
            i <= probes.len(),
            gprobes == probes@.map_values(|p: RootProbe| p@),
            gprobes.len() == probes@.len(),
            out@ == head + g_probes_joined(gprobes.subrange(0, i as int)),
        decreases probes.len() - i,
    {
        let ghost pre = gprobes.subrange(0, i as int);
        let ghost post = gprobes.subrange(0, i as int + 1);
        proof {
            assert(post.drop_last() =~= pre);
            assert(post.last() == gprobes[i as int]);
        }
        if i > 0 {
            push_str_chars(&mut out, ", ");
        }
        let d = probes[i].path.to_string_abs();
        push_str_chars(&mut out, d.as_str());
        proof {
            if i == 0 {
                assert(out@ =~= head + g_probes_joined(post));
            } else {
                assert(out@ =~= head + (g_probes_joined(pre) + ", "@
                    + crate::fspath::abs_display(gprobes[i as int].path)));
                assert(out@ =~= head + g_probes_joined(post));
            }
        }
        i = i + 1;
    }
    push_str_chars(&mut out, ")");
    proof {
        assert(gprobes.subrange(0, gprobes.len() as int) =~= gprobes);
        assert(out@ =~= g_no_root_message(gprobes));
    }
    crate::text::chars_to_string(&out)
}

/// The per-file outcome of the file discovered at position `idx`.
pub open spec fn g_item_result(
    t: Seq<crate::fstable::GFile>,
    f: GDiscovered,
    idx: int,
    srcdir: Seq<char>,
) -> Result<Seq<GItem>, Seq<char>> {
    let id = crate::weapons::g_file_id(f.path, idx as nat);
    if f.path.len() > 0 && crate::fspath::g_ext(f.path.last()) == Some("carry_item"@) {
        g_parse_carry_file(t, f.path, f.root, id, srcdir)
    } else {
        match g_parse_visual_file(t, f.path, f.root, id, srcdir) {
            Ok(item) => Ok(seq![item]),
            Err(m) => Err(m),
        }
    }
}

/// The outcomes of the first `n` discovered files, in order.
pub open spec fn g_item_results(
    t: Seq<crate::fstable::GFile>,
    files: Seq<GDiscovered>,
    srcdir: Seq<char>,
    n: int,
) -> Seq<Result<Seq<GItem>, Seq<char>>>
    decreases n,
{
    if n <= 0 {
        Seq::empty()
    } else {
        g_item_results(t, files, srcdir, n - 1).push(
            g_item_result(t, files[n - 1], n - 1, srcdir),
        )
    }
}

/// The view of one per-file outcome.
pub open spec fn res_view(r: Result<Vec<Item>, String>) -> Result<Seq<GItem>, Seq<char>> {
    match r {
        Ok(v) => Ok(v@.map_values(|x: Item| x@)),
        Err(m) => Err(m@),
    }
}

/// Computes every per-file outcome, in discovery order.
fn item_results(
    table: &crate::fstable::FileTable,
    files: &Vec<Discovered>,
    source_directory: &str,
) -> (r: Vec<Result<Vec<Item>, String>>)
    requires
        forall|j: int| 0 <= j < files@.len() ==> (#[trigger] files@[j])@.path.len() > 0,
    ensures
        r@.map_values(|x: Result<Vec<Item>, String>| res_view(x)) == g_item_results(
            table@,
            files@.map_values(|d: Discovered| d@),
            source_directory@,
            files@.len() as int,
        ),
        r@.len() == files@.len(),
{
    let ghost gfiles = files@.map_values(|d: Discovered| d@);
    let mut r: Vec<Result<Vec<Item>, String>> = Vec::new();
    let mut i: usize = 0;
    proof {
        assert(r@.map_values(|x: Result<Vec<Item>, String>| res_view(x))
            =~= Seq::<Result<Seq<GItem>, Seq<char>>>::empty());
    }
    while i < files.len()
        invariant
            i <= files.len(),
            gfiles == files@.map_values(|d: Discovered| d@),
            gfiles.len() == files@.len(),
            forall|j: int| 0 <= j < files@.len() ==> (#[trigger] files@[j])@.path.len() > 0,
            r@.len() == i,
            r@.map_values(|x: Result<Vec<Item>, String>| res_view(x)) == g_item_results(
                table@,
                gfiles,
                source_directory@,
                i as int,
            ),
        decreases files.len() - i,
    {
        let f = &files[i];
        let id = crate::weapons::make_file_id(&f.path, i);
        let one: Result<Vec<Item>, String>;
        if f.path.has_extension("carry_item") {
            one = parse_carry_item(table, &f.path, &f.root, id, source_directory);
        } else {
            proof {
                assert(files@[i as int]@.path.len() > 0);
            }
            match parse_visual_item(table, &f.path, &f.root, id, source_directory) {
                Ok(item) => {
                    let mut v: Vec<Item> = Vec::new();
                    let ghost gitem = item@;
                    v.push(item);
                    proof {
                        assert(v@.map_values(|x: Item| x@) =~= seq![gitem]);
                    }
                    one = Ok(v);
                },
                Err(m) => {
                    one = Err(m);
                },
            }
        }
        let ghost m0 = r@.map_values(|x: Result<Vec<Item>, String>| res_view(x));
        let ghost gone = res_view(one);
        proof {
            assert(gone == g_item_result(table@, gfiles[i as int], i as int, source_directory@));
        }
        r.push(one);
        proof {
            assert(r@.map_values(|x: Result<Vec<Item>, String>| res_view(x)) =~= m0.push(gone));
        }
        i = i + 1;
    }
    r
}

/// The records of the successful outcomes among `results`, flattened in
/// order.
pub open spec fn g_oks_flat(results: Seq<Result<Seq<GItem>, Seq<char>>>) -> Seq<GItem>
    decreases results.len(),
{
    if results.len() == 0 {
        Seq::empty()
    } else {
        let r = g_oks_flat(results.drop_last());
        match results.last() {
            Ok(items) => r + items,
            Err(_) => r,
        }
    }
}

/// The failure messages among `results`, in order.
pub open spec fn g_errs(results: Seq<Result<Seq<GItem>, Seq<char>>>) -> Seq<Seq<char>>
    decreases results.len(),
{
    if results.len() == 0 {
        Seq::empty()
    } else {
        let r = g_errs(results.drop_last());
        match results.last() {
            Ok(_) => r,
            Err(m) => r.push(m),
        }
    }
}

/// The scan errors derived from the outcomes, named after their files.
pub open spec fn g_item_errors(
    results: Seq<Result<Seq<GItem>, Seq<char>>>,
    files: Seq<GDiscovered>,
    n: int,
) -> Seq<GItemScanError>
    decreases n,
{
    if n <= 0 {
        Seq::empty()
    } else {
        let r = g_item_errors(results, files, n - 1);
        match results[n - 1] {
            Ok(_) => r,
            Err(m) => r.push(
                GItemScanError {
                    file: crate::fspath::abs_display(files[n - 1].path),
                    error: m,
                    severity: "error"@,
                },
            ),
        }
    }
}

/// One whole collecting item scan: discovery under every existing root,
/// per-file processing, and duplicate-key reporting. Fails only when no
/// probed root exists.
pub open spec fn g_scan_items_collect(
    t: Seq<crate::fstable::GFile>,
    probes: Seq<GRootProbe>,
    srcdir: Seq<char>,
    scan_time: u64,
) -> Result<GItemScanResult, Seq<char>> {
    if !g_any_exists(probes) {
        Err(g_no_root_message(probes))
    } else {
        let files = g_discover_items(t, probes);
        let results = g_item_results(t, files, srcdir, files.len() as int);
        let items = g_oks_flat(results);
        Ok(
            GItemScanResult {
                items: items,
                errors: g_item_errors(results, files, files.len() as int),
                duplicate_keys: crate::dupkeys::g_dup_keys(
                    items.map_values(|x: GItem| x.key),
                ),
                scan_time,
            },
        )
    }
}

/// Scans every item definition under the probed roots, collecting the
/// records, the per-file errors, and the duplicate keys.
pub fn scan_items_collect(
    table: &crate::fstable::FileTable,
    probes: &Vec<RootProbe>,
    source_directory: &str,
    scan_time: u64,
) -> (r: Result<ItemScanResult, String>)
    ensures
        match r {
            Ok(res) => g_scan_items_collect(
                table@,
                probes@.map_values(|p: RootProbe| p@),
                source_directory@,
                scan_time,
            ) == Ok::<GItemScanResult, Seq<char>>(res@),
            Err(m) => g_scan_items_collect(
                table@,
                probes@.map_values(|p: RootProbe| p@),
                source_directory@,
                scan_time,
            ) == Err::<GItemScanResult, Seq<char>>(m@),
        },
{
    let ghost gprobes = probes@.map_values(|p: RootProbe| p@);
    let mut any = false;
    let mut i: usize = 0;
    while i < probes.len()
        invariant
            i <= probes.len(),
            gprobes == probes@.map_values(|p: RootProbe| p@),
            gprobes.len() == probes@.len(),
            any ==> g_any_exists(gprobes),
            !any ==> forall|j: int| 0 <= j < i ==> !gprobes[j].exists,
        decreases probes.len() - i,
    {
        if probes[i].exists {
            any = true;
            proof {
                assert(gprobes[i as int].exists);
            }
            i = probes.len();
        } else {
            i = i + 1;
        }
    }
    if !any {
        return Err(no_root_message(probes));
    }
    let files = discover_items(table, probes);
    let results = item_results(table, &files, source_directory);
    let ghost gfiles = files@.map_values(|d: Discovered| d@);
    let ghost gresults = g_item_results(table@, gfiles, source_directory@, files@.len() as int);
    // flatten the successes and name the failures
    let mut items: Vec<Item> = Vec::new();
    let mut errors: Vec<ScanError> = Vec::new();
    let mut k: usize = 0;
    let total = results.len();
    let mut results = results;
    proof {
        assert(items@.map_values(|x: Item| x@) =~= g_oks_flat(gresults.subrange(0, 0)));
        assert(errors@.map_values(|e: ScanError| e@) =~= g_item_errors(gresults, gfiles, 0));
    }
    while k < total
        invariant
            k <= total,
            total == gresults.len(),
            results@.len() == gresults.len() - k,
            gresults.len() == gfiles.len(),
            gfiles == files@.map_values(|d: Discovered| d@),
            gfiles.len() == files@.len(),
            forall|j: int|
                0 <= j < results@.len() ==> res_view(#[trigger] results@[j]) == gresults[j + k],
            items@.map_values(|x: Item| x@) == g_oks_flat(gresults.subrange(0, k as int)),
            errors@.map_values(|e: ScanError| e@) == g_item_errors(gresults, gfiles, k as int),
        decreases total - k,
    {
        let ghost pre = gresults.subrange(0, k as int);
        let ghost post = gresults.subrange(0, k as int + 1);
        proof {
            assert(post.drop_last() =~= pre);
            assert(post.last() == gresults[k as int]);
            assert(res_view(results@[0]) == gresults[k as int]);
        }
        let ghost old_results = results@;
        let taken = results.remove(0);
        proof {
            assert(forall|j: int|
                0 <= j < results@.len() ==> results@[j] == old_results[j + 1]);
        }
        match taken {
            Ok(mut v) => {
                let ghost m0 = items@.map_values(|x: Item| x@);
                let ghost gv = v@.map_values(|x: Item| x@);
                items.append(&mut v);
                proof {
                    assert(items@.map_values(|x: Item| x@) =~= m0 + gv);
                    assert(g_oks_flat(post) =~= pre_flat_plus(pre, gv));
                }
            },
            Err(m) => {
                let ghost m0 = errors@.map_values(|e: ScanError| e@);
                let file = files[k].path.to_string_abs();
                errors.push(ScanError { file, error: m, severity: String::from_str("error") });
                proof {
                    assert(errors@.map_values(|e: ScanError| e@) =~= m0.push(errors@.last()@));
                }
            },
        }
        k = k + 1;
    }
    proof {
        assert(gresults.subrange(0, gresults.len() as int) =~= gresults);
    }
    // duplicate keys over the emitted records
    let mut keys: Vec<Option<String>> = Vec::new();
    let mut j: usize = 0;
    let ghost gitems = items@.map_values(|x: Item| x@);
    proof {
        assert(crate::dupkeys::keys_view(keys@) =~= gitems.map_values(|x: GItem| x.key).subrange(
            0,
            0,
        ));
    }
    while j < items.len()
        invariant
            j <= items.len(),
            gitems == items@.map_values(|x: Item| x@),
            gitems.len() == items@.len(),
            crate::dupkeys::keys_view(keys@) =~= gitems.map_values(|x: GItem| x.key).subrange(
                0,
                j as int,
            ),
            keys@.len() == j,
        decreases items.len() - j,
    {
        keys.push(clone_opt(&items[j].key));
        proof {
            assert(crate::dupkeys::keys_view(keys@) =~= gitems.map_values(
                |x: GItem| x.key,
            ).subrange(0, j as int + 1));
        }
        j = j + 1;
    }
    proof {
        let all = gitems.map_values(|x: GItem| x.key);
        assert(all.subrange(0, all.len() as int) =~= all);
        assert(crate::dupkeys::keys_view(keys@) == all);
        assert(keys@.len() <= u64::MAX);
    }
    let duplicate_keys = crate::dupkeys::duplicate_keys_of(&keys);
    Ok(ItemScanResult { items, errors, duplicate_keys, scan_time })
}

/// Helper shape for the flatten step.
pub open spec fn pre_flat_plus(
    pre: Seq<Result<Seq<GItem>, Seq<char>>>,
    gv: Seq<GItem>,
) -> Seq<GItem> {
    g_oks_flat(pre) + gv
}

use crate::events::GScanEvent;
use crate::events::ScanEvent;

/// The events emitted for the outcomes from position `b` on: each batch
/// flushes its records in one chunk (skipped when empty), then its
/// failures one by one, then a progress counter in file units.
pub open spec fn g_batch_events(
    results: Seq<Result<Seq<GItem>, Seq<char>>>,
    total: int,
    b: int,
) -> Seq<GScanEvent<GItem>>
    decreases results.len() - b,
{
    if b < 0 || b >= results.len() {
        Seq::empty()
    } else {
        let e = if b + BATCH_SIZE <= results.len() {
            b + BATCH_SIZE as int
        } else {
            results.len() as int
        };
        let chunk = results.subrange(b, e);
        let items = g_oks_flat(chunk);
        let errs = g_errs(chunk);
        (if items.len() > 0 {
            seq![GScanEvent::<GItem>::Chunk(items)]
        } else {
            Seq::empty()
        }) + errs.map_values(|m: Seq<char>| GScanEvent::<GItem>::Error(m)) + seq![
            GScanEvent::<GItem>::Progress { current: e, total: total },
        ] + g_batch_events(results, total, e)
    }
}

/// One whole streaming item scan: an immediate terminal signal when
/// nothing was discovered, else an initial progress event, the batched
/// events, and the terminal signal.
pub open spec fn g_scan_items_stream(
    t: Seq<crate::fstable::GFile>,
    probes: Seq<GRootProbe>,
    srcdir: Seq<char>,
) -> Result<Seq<GScanEvent<GItem>>, Seq<char>> {
    if !g_any_exists(probes) {
        Err(g_no_root_message(probes))
    } else {
        let files = g_discover_items(t, probes);
        if files.len() == 0 {
            Ok(seq![GScanEvent::<GItem>::Finished])
        } else {
            let results = g_item_results(t, files, srcdir, files.len() as int);
            Ok(
                seq![
                    GScanEvent::<GItem>::Progress { current: 0, total: files.len() as int },
                ] + g_batch_events(results, files.len() as int, 0) + seq![
                    GScanEvent::<GItem>::Finished,
                ],
            )
        }
    }
}

/// Scans every item definition under the probed roots, streaming the
/// records in bounded batches with progress counters, the failures on a
/// parallel stream, and a terminal signal.
pub fn scan_items(
    table: &crate::fstable::FileTable,
    probes: &Vec<RootProbe>,
    source_directory: &str,
) -> (r: Result<Vec<ScanEvent<Item>>, String>)
    ensures
        match r {
            Ok(events) => g_scan_items_stream(
                table@,
                probes@.map_values(|p: RootProbe| p@),
                source_directory@,
            ) == Ok::<Seq<GScanEvent<GItem>>, Seq<char>>(
                events@.map_values(|e: ScanEvent<Item>| e@),
            ),
            Err(m) => g_scan_items_stream(
                table@,
                probes@.map_values(|p: RootProbe| p@),
                source_directory@,
            ) == Err::<Seq<GScanEvent<GItem>>, Seq<char>>(m@),
        },
{
    let ghost gprobes = probes@.map_values(|p: RootProbe| p@);
    let mut any = false;
    let mut i: usize = 0;
    while i < probes.len()
        invariant
            i <= probes.len(),
            gprobes == probes@.map_values(|p: RootProbe| p@),
            gprobes.len() == probes@.len(),
            any ==> g_any_exists(gprobes),
            !any ==> forall|j: int| 0 <= j < i ==> !gprobes[j].exists,
        decreases probes.len() - i,
    {
        if probes[i].exists {
            any = true;
            proof {
                assert(gprobes[i as int].exists);
            }
            i = probes.len();
        } else {
            i = i + 1;
        }
    }
    if !any {
        return Err(no_root_message(probes));
    }
    let files = discover_items(table, probes);
    if files.len() == 0 {
        let mut events: Vec<ScanEvent<Item>> = Vec::new();
        events.push(ScanEvent::Finished);
        proof {
            assert(events@.map_values(|e: ScanEvent<Item>| e@) =~= seq![
                GScanEvent::<GItem>::Finished,
            ]);
        }
        return Ok(events);
    }
    let total = files.len();
    let results = item_results(table, &files, source_directory);
    let ghost gfiles = files@.map_values(|d: Discovered| d@);
    let ghost gresults = g_item_results(table@, gfiles, source_directory@, files@.len() as int);
    let mut events: Vec<ScanEvent<Item>> = Vec::new();
    events.push(ScanEvent::Progress { current: 0, total });
    let ghost first = seq![GScanEvent::<GItem>::Progress { current: 0, total: total as int }];
    proof {
        assert(events@.map_values(|e: ScanEvent<Item>| e@) =~= first);
        assert(first + g_batch_events(gresults, total as int, 0) =~= events@.map_values(
            |e: ScanEvent<Item>| e@,
        ) + g_batch_events(gresults, total as int, 0));
    }
    let mut b: usize = 0;
    let mut results = results;
    while b < total
        invariant
            b <= total,
            total == gresults.len(),
            results@.len() == gresults.len() - b,
            forall|j: int|
                0 <= j < results@.len() ==> res_view(#[trigger] results@[j]) == gresults[j + b],
            first + g_batch_events(gresults, total as int, 0) =~= events@.map_values(
                |e: ScanEvent<Item>| e@,
            ) + g_batch_events(gresults, total as int, b as int),
        decreases total - b,
    {
        let e: usize = if total - b <= BATCH_SIZE {
            total
        } else {
            b + BATCH_SIZE
        };
        let ghost chunk = gresults.subrange(b as int, e as int);
        // gather this batch's records and failures
        let mut chunk_items: Vec<Item> = Vec::new();
        let mut chunk_errs: Vec<String> = Vec::new();
        let mut k: usize = 0;
        proof {
            assert(chunk_items@.map_values(|x: Item| x@) =~= g_oks_flat(
                chunk.subrange(0, 0),
            ));
            assert(chunk_errs@.map_values(|s: String| s@) =~= g_errs(chunk.subrange(0, 0)));
        }
        while k < e - b
            invariant
                k <= e - b,
                b + k <= e <= total,
                total == gresults.len(),
                chunk == gresults.subrange(b as int, e as int),
                results@.len() == gresults.len() - b - k,
                forall|j: int|
                    0 <= j < results@.len() ==> res_view(#[trigger] results@[j]) == gresults[
                        j + b + k
                    ],
                chunk_items@.map_values(|x: Item| x@) == g_oks_flat(chunk.subrange(0, k as int)),
                chunk_errs@.map_values(|s: String| s@) == g_errs(chunk.subrange(0, k as int)),
            decreases e - b - k,
        {
            let ghost cpre = chunk.subrange(0, k as int);
            let ghost cpost = chunk.subrange(0, k as int + 1);
            proof {
                assert(cpost.drop_last() =~= cpre);
                assert(cpost.last() == chunk[k as int]);
                assert(chunk[k as int] == gresults[b + k]);
                assert(res_view(results@[0]) == gresults[b + k]);
            }
            let ghost old_results = results@;
            let taken = results.remove(0);
            proof {
                assert(forall|j: int|
                    0 <= j < results@.len() ==> results@[j] == old_results[j + 1]);
            }
            match taken {
                Ok(mut v) => {
                    let ghost m0 = chunk_items@.map_values(|x: Item| x@);
                    let ghost gv = v@.map_values(|x: Item| x@);
                    chunk_items.append(&mut v);
                    proof {
                        assert(chunk_items@.map_values(|x: Item| x@) =~= m0 + gv);
                    }
                },
                Err(m) => {
                    let ghost m0 = chunk_errs@.map_values(|s: String| s@);
                    chunk_errs.push(m);
                    proof {
                        assert(chunk_errs@.map_values(|s: String| s@) =~= m0.push(
                            chunk_errs@.last()@,
                        ));
                    }
                },
            }
            k = k + 1;
        }
        proof {
            assert(chunk.subrange(0, chunk.len() as int) =~= chunk);
        }
        // emit the batch's events
        let ghost ev0 = events@.map_values(|e: ScanEvent<Item>| e@);
        let ghost gitems = g_oks_flat(chunk);
        let ghost gerrs = g_errs(chunk);
        let had_items = chunk_items.len() > 0;
        if had_items {
            let ghost gchunk_items = chunk_items@.map_values(|x: Item| x@);
            events.push(ScanEvent::Chunk(chunk_items));
            proof {
                assert(events@.map_values(|e: ScanEvent<Item>| e@) =~= ev0.push(
                    GScanEvent::<GItem>::Chunk(gitems),
                ));
            }
        }
        let ghost ev1 = events@.map_values(|e: ScanEvent<Item>| e@);
        let mut chunk_errs = chunk_errs;
        let mut m: usize = 0;
        let total_errs = chunk_errs.len();
        proof {
            assert(ev1 =~= ev1 + gerrs.map_values(
                |m: Seq<char>| GScanEvent::<GItem>::Error(m),
            ).subrange(0, 0));
        }
        while m < total_errs
            invariant
                m <= total_errs,
                total_errs == gerrs.len(),
                chunk_errs@.len() == gerrs.len() - m,
                forall|j: int| 0 <= j < chunk_errs@.len() ==> (#[trigger] chunk_errs@[j])@
                    == gerrs[j + m],
                events@.map_values(|e: ScanEvent<Item>| e@) =~= ev1 + gerrs.map_values(
                    |mm: Seq<char>| GScanEvent::<GItem>::Error(mm),
                ).subrange(0, m as int),
            decreases total_errs - m,
        {
            let ghost old_errs = chunk_errs@;
            let err = chunk_errs.remove(0);
            proof {
                assert(forall|j: int|
                    0 <= j < chunk_errs@.len() ==> chunk_errs@[j] == old_errs[j + 1]);
            }
            let ghost evb = events@.map_values(|e: ScanEvent<Item>| e@);
            events.push(ScanEvent::Error(err));
            proof {
                let mapped = gerrs.map_values(|mm: Seq<char>| GScanEvent::<GItem>::Error(mm));
                assert(events@.map_values(|e: ScanEvent<Item>| e@) =~= evb.push(
                    mapped[m as int],
                ));
                assert(mapped.subrange(0, m as int + 1) =~= mapped.subrange(0, m as int).push(
                    mapped[m as int],
                ));
            }
            m = m + 1;
        }
        let ghost ev2 = events@.map_values(|e: ScanEvent<Item>| e@);
        events.push(ScanEvent::Progress { current: e, total });
        proof {
            let mapped = gerrs.map_values(|mm: Seq<char>| GScanEvent::<GItem>::Error(mm));
            assert(mapped.subrange(0, mapped.len() as int) =~= mapped);
            assert(events@.map_values(|ee: ScanEvent<Item>| ee@) =~= ev2.push(
                GScanEvent::<GItem>::Progress { current: e as int, total: total as int },
            ));
            // this batch's spec events equal what was just emitted
            let spec_batch = (if gitems.len() > 0 {
                seq![GScanEvent::<GItem>::Chunk(gitems)]
            } else {
                Seq::<GScanEvent<GItem>>::empty()
            }) + mapped + seq![
                GScanEvent::<GItem>::Progress { current: e as int, total: total as int },
            ];
            assert(events@.map_values(|ee: ScanEvent<Item>| ee@) =~= ev0 + spec_batch);
            assert(g_batch_events(gresults, total as int, b as int) == spec_batch
                + g_batch_events(gresults, total as int, e as int));
            assert(first + g_batch_events(gresults, total as int, 0) =~= events@.map_values(
                |ee: ScanEvent<Item>| ee@,
            ) + g_batch_events(gresults, total as int, e as int));
        }
        b = e;
    }
    events.push(ScanEvent::Finished);
    proof {
        assert(g_batch_events(gresults, total as int, total as int) =~= Seq::<
            GScanEvent<GItem>,
        >::empty());
        let evs = events@.map_values(|e: ScanEvent<Item>| e@);
        assert(evs =~= first + g_batch_events(gresults, total as int, 0) + seq![
            GScanEvent::<GItem>::Finished,
        ]);
    }
    Ok(events)
}

/// Empty-stream law: when some probed root exists but nothing was
/// discovered, the streaming scan yields exactly the terminal signal,
/// not an error; and the collecting scan yields the empty result.
pub proof fn lemma_empty_item_scan(
    t: Seq<crate::fstable::GFile>,
    probes: Seq<GRootProbe>,
    srcdir: Seq<char>,
    scan_time: u64,
)
    requires
        g_any_exists(probes),
        g_discover_items(t, probes).len() == 0,
    ensures
        g_scan_items_stream(t, probes, srcdir) == Ok::<Seq<GScanEvent<GItem>>, Seq<char>>(
            seq![GScanEvent::<GItem>::Finished],
        ),
        g_scan_items_collect(t, probes, srcdir, scan_time) == Ok::<GItemScanResult, Seq<char>>(
            GItemScanResult {
                items: Seq::empty(),
                errors: Seq::empty(),
                duplicate_keys: Seq::empty(),
                scan_time,
            },
        ),
{
    let files = g_discover_items(t, probes);
    assert(g_item_results(t, files, srcdir, 0) =~= Seq::<Result<Seq<GItem>, Seq<char>>>::empty());
    assert(g_oks_flat(Seq::<Result<Seq<GItem>, Seq<char>>>::empty()) =~= Seq::<GItem>::empty());
    assert(g_item_errors(Seq::<Result<Seq<GItem>, Seq<char>>>::empty(), files, 0)
        =~= Seq::<GItemScanError>::empty());
    assert(Seq::<GItem>::empty().map_values(|x: GItem| x.key)
        =~= Seq::<Option<Seq<char>>>::empty());
    assert(crate::dupkeys::g_dup_keys(Seq::<Option<Seq<char>>>::empty())
        =~= Seq::<Seq<char>>::empty());
}

} // verus!
