//! What the wiki's pages hold: the workshop recipes, the operators'
//! growth materials and their base skills, read from the page model.
use vstd::prelude::*;
use crate::html::{
    HtmlCell, HtmlItemAnchor, HtmlRow, HtmlSection, HtmlTable, fixed_selector_message, fixed_selectors_parse,
    read_html_section, section_model, section_view, selector_message,
};
use crate::prts::{PrtsClientError, PrtsOperatorDefinition, PrtsRecipeIngredient, arrow_values, building_skill_condition_key, building_skill_room_type_key, elite_stage_key, room_type_key, kept_chars, mastery_stage_key, normalize_optional_text, normalize_text, parse_i64_decimal, parse_i64_text, skill_upgrade_stage_key, two_part};
use crate::text::{contains_sub, decimal, is_prefix, join, join_strings, opt_view, str_contains, str_eq, string_views, u64_to_decimal, words};

verus! {

/// The words of a text joined by single spaces.
pub open spec fn norm(t: Seq<char>) -> Seq<char> {
    join(words(t), seq![' '])
}

/// The number that a text's ASCII digits write, where there are some.
pub open spec fn i64_text(t: Seq<char>) -> Option<i64> {
    if kept_chars(t, false).len() == 0 {
        None
    } else {
        parse_i64_decimal(kept_chars(t, false))
    }
}

/// A normalized text that says something (not empty, not a lone dash).
pub open spec fn opt_norm(t: Seq<char>) -> Option<Seq<char>> {
    let n = norm(t);
    if n.len() == 0 || n == "－"@ || n == "-"@ {
        None
    } else {
        Some(n)
    }
}

// ---------------------------------------------------------------------------
// cells

/// The text of the first `th` cell that spans seven columns: a recipe
/// table's section heading.
pub open spec fn section_header(cells: Seq<HtmlCell>) -> Option<Seq<char>>
    decreases cells.len(),
{
    if cells.len() == 0 {
        None
    } else if cells[0].name@ == "th"@ && opt_view(cells[0].colspan) == Some("7"@) {
        Some(cells[0].text@)
    } else {
        section_header(cells.drop_first())
    }
}

/// The `td` cells, in order.
pub open spec fn td_cells(cells: Seq<HtmlCell>) -> Seq<HtmlCell>
    decreases cells.len(),
{
    if cells.len() == 0 {
        seq![]
    } else {
        let p = td_cells(cells.drop_last());
        if cells.last().name@ == "td"@ {
            p.push(cells.last())
        } else {
            p
        }
    }
}

fn find_section_header(cells: &Vec<HtmlCell>) -> (res: Option<String>)
    ensures
        opt_view(res) == section_header(cells@),
{
    let mut i: usize = 0;
    assert(cells@.skip(0) =~= cells@);
    while i < cells.len()
        invariant
            i <= cells@.len(),
            section_header(cells@) == section_header(cells@.skip(i as int)),
        decreases cells@.len() - i,
    {
        let c = &cells[i];
        assert(cells@.skip(i as int)[0] == cells@[i as int]);
        let is_th = str_eq(c.name.as_str(), "th");
        let spans = match &c.colspan {
            Some(s) => str_eq(s.as_str(), "7"),
            None => false,
        };
        if is_th && spans {
            return Some(c.text.clone());
        }
        assert(cells@.skip(i as int).drop_first() =~= cells@.skip(i + 1));
        i += 1;
    }
    assert(cells@.skip(i as int).len() == 0);
    None
}

/// The positions of the `td` cells.
fn td_positions(cells: &Vec<HtmlCell>) -> (res: Vec<usize>)
    ensures
        res@.len() == td_cells(cells@).len(),
        forall|k: int|
            0 <= k < res@.len() ==> #[trigger] res@[k] < cells@.len() && cells@[res@[k] as int] == td_cells(cells@)[k],
{
    let mut res: Vec<usize> = Vec::new();
    let mut i: usize = 0;
    while i < cells.len()
        invariant
            i <= cells@.len(),
            res@.len() == td_cells(cells@.take(i as int)).len(),
            forall|k: int|
                0 <= k < res@.len() ==> #[trigger] res@[k] < i && cells@[res@[k] as int] == td_cells(
                    cells@.take(i as int),
                )[k],
        decreases cells@.len() - i,
    {
        let ghost prev = td_cells(cells@.take(i as int));
        assert(cells@.take(i + 1).drop_last() =~= cells@.take(i as int));
        assert(cells@.take(i + 1).last() == cells@[i as int]);
        let is_td = str_eq(cells[i].name.as_str(), "td");
        assert(td_cells(cells@.take(i + 1)) == if is_td {
            prev.push(cells@[i as int])
        } else {
            prev
        });
        let ghost old_res = res@;
        if is_td {
            res.push(i);
        }
        assert forall|k: int| 0 <= k < res@.len() implies #[trigger] res@[k] < i + 1 && cells@[res@[k] as int]
            == td_cells(cells@.take(i + 1))[k] by {
            if k < old_res.len() {
                assert(res@[k] == old_res[k]);
            }
        }
        i += 1;
    }
    assert(cells@.take(i as int) =~= cells@);
    res
}

// ---------------------------------------------------------------------------
// the recipes

/// A recipe as the workshop table lists it. `byproduct_rate_text` is the
/// byproduct cell's text, which the application reads as a percentage.
pub struct PrtsRecipeDefinition {
    pub recipe_kind: String,
    pub workshop_level: i64,
    pub output_name_zh: String,
    pub ingredients: Vec<PrtsRecipeIngredient>,
    pub lmd_cost: i64,
    pub mood_cost: i64,
    pub byproduct_rate_text: String,
    pub unlock_condition: Option<String>,
}

pub open spec fn ingredient_view(i: PrtsRecipeIngredient) -> (Seq<char>, i64) {
    (i.item_name_zh@, i.count)
}

pub open spec fn recipe_view(r: PrtsRecipeDefinition) -> (
    Seq<char>,
    i64,
    Seq<char>,
    Seq<(Seq<char>, i64)>,
    i64,
    i64,
    Seq<char>,
    Option<Seq<char>>,
) {
    (
        r.recipe_kind@,
        r.workshop_level,
        r.output_name_zh@,
        r.ingredients@.map_values(|i: PrtsRecipeIngredient| ingredient_view(i)),
        r.lmd_cost,
        r.mood_cost,
        r.byproduct_rate_text@,
        opt_view(r.unlock_condition),
    )
}

pub open spec fn recipe_views(rs: Seq<PrtsRecipeDefinition>) -> Seq<
    (Seq<char>, i64, Seq<char>, Seq<(Seq<char>, i64)>, i64, i64, Seq<char>, Option<Seq<char>>),
> {
    rs.map_values(|r: PrtsRecipeDefinition| recipe_view(r))
}

/// The items of a recipe cell: each titled link with the count its text
/// writes (one where it writes none).
pub open spec fn recipe_items(items: Seq<HtmlItemAnchor>) -> Seq<(Seq<char>, i64)> {
    items.map_values(
        |a: HtmlItemAnchor|
            (
                a.title@,
                match i64_text(a.text@) {
                    Some(v) => v,
                    None => 1,
                },
            ),
    )
}

pub open spec fn no_recipe_items_message() -> Seq<char> {
    "recipe cell does not contain any item anchors"@
}

/// The recipe of a row's seven `td` cells under the section `kind`.
pub open spec fn recipe_from_tds(tds: Seq<HtmlCell>, kind: Option<Seq<char>>) -> Result<
    (Seq<char>, i64, Seq<char>, Seq<(Seq<char>, i64)>, i64, i64, Seq<char>, Option<Seq<char>>),
    Seq<char>,
> {
    match i64_text(tds[0].text@) {
        None => Err("recipe row is missing workshop level"@),
        Some(level) => if tds[1].items@.len() == 0 || tds[2].items@.len() == 0 {
            Err(no_recipe_items_message())
        } else {
            let output = tds[2].items@[0].title@;
            match i64_text(tds[3].text@) {
                None => Err("recipe "@ + output + " is missing LMD cost"@),
                Some(lmd) => match i64_text(tds[4].text@) {
                    None => Err("recipe "@ + output + " is missing mood cost"@),
                    Some(mood) => Ok(
                        (
                            match kind {
                                Some(k) => k,
                                None => "未分类"@,
                            },
                            level,
                            output,
                            recipe_items(tds[1].items@),
                            lmd,
                            mood,
                            tds[5].text@,
                            opt_norm(tds[6].text@),
                        ),
                    ),
                },
            }
        },
    }
}

/// One row of a recipe table: a section heading sets the kind; a row of
/// seven `td` cells is a recipe; other rows are passed over.
pub open spec fn recipe_row_step(
    row: HtmlRow,
    kind: Option<Seq<char>>,
    rs: Seq<(Seq<char>, i64, Seq<char>, Seq<(Seq<char>, i64)>, i64, i64, Seq<char>, Option<Seq<char>>)>,
) -> Result<
    (Option<Seq<char>>, Seq<(Seq<char>, i64, Seq<char>, Seq<(Seq<char>, i64)>, i64, i64, Seq<char>, Option<Seq<char>>)>),
    Seq<char>,
> {
    match section_header(row.cells@) {
        Some(t) => Ok((if t.len() > 0 { Some(t) } else { kind }, rs)),
        None => {
            let tds = td_cells(row.cells@);
            if tds.len() != 7 {
                Ok((kind, rs))
            } else {
                match recipe_from_tds(tds, kind) {
                    Err(m) => Err(m),
                    Ok(r) => Ok((kind, rs.push(r))),
                }
            }
        },
    }
}

/// The first `n` rows of a recipe table read after `acc`.
pub open spec fn recipe_table_scan(
    table: HtmlTable,
    n: int,
    acc: Seq<(Seq<char>, i64, Seq<char>, Seq<(Seq<char>, i64)>, i64, i64, Seq<char>, Option<Seq<char>>)>,
) -> Result<
    (Option<Seq<char>>, Seq<(Seq<char>, i64, Seq<char>, Seq<(Seq<char>, i64)>, i64, i64, Seq<char>, Option<Seq<char>>)>),
    Seq<char>,
>
    decreases n,
{
    if n <= 0 {
        Ok((None, acc))
    } else {
        match recipe_table_scan(table, n - 1, acc) {
            Err(m) => Err(m),
            Ok((kind, rs)) => recipe_row_step(table.rows@[n - 1], kind, rs),
        }
    }
}

/// A table is a recipe table when its text names the level, ingredient and
/// product columns.
pub open spec fn is_recipe_table(text: Seq<char>) -> bool {
    contains_sub(text, "加工站等级"@) && contains_sub(text, "所需原料"@) && contains_sub(text, "产品"@)
}

/// The recipes of the first `n` tables.
pub open spec fn recipe_tables_scan(tables: Seq<HtmlTable>, n: int) -> Result<
    Seq<(Seq<char>, i64, Seq<char>, Seq<(Seq<char>, i64)>, i64, i64, Seq<char>, Option<Seq<char>>)>,
    Seq<char>,
>
    decreases n,
{
    if n <= 0 {
        Ok(seq![])
    } else {
        match recipe_tables_scan(tables, n - 1) {
            Err(m) => Err(m),
            Ok(rs) => if !is_recipe_table(tables[n - 1].text@) {
                Ok(rs)
            } else {
                match recipe_table_scan(tables[n - 1], tables[n - 1].rows@.len() as int, rs) {
                    Err(m) => Err(m),
                    Ok((_, rs2)) => Ok(rs2),
                }
            },
        }
    }
}

/// The recipes of a workshop page's tables, in order; there must be some.
pub open spec fn recipes_of_section(section: HtmlSection) -> Result<
    Seq<(Seq<char>, i64, Seq<char>, Seq<(Seq<char>, i64)>, i64, i64, Seq<char>, Option<Seq<char>>)>,
    Seq<char>,
> {
    match recipe_tables_scan(section.tables@, section.tables@.len() as int) {
        Err(m) => Err(m),
        Ok(rs) => if rs.len() == 0 {
            Err("recipe index HTML does not contain any recipe rows"@)
        } else {
            Ok(rs)
        },
    }
}

proof fn lemma_recipe_table_error_stays(
    table: HtmlTable,
    k: int,
    n: int,
    acc: Seq<(Seq<char>, i64, Seq<char>, Seq<(Seq<char>, i64)>, i64, i64, Seq<char>, Option<Seq<char>>)>,
)
    requires
        0 <= k <= n,
        recipe_table_scan(table, k, acc) is Err,
    ensures
        recipe_table_scan(table, n, acc) == recipe_table_scan(table, k, acc),
    decreases n - k,
{
    if k < n {
        lemma_recipe_table_error_stays(table, k, n - 1, acc);
    }
}

proof fn lemma_recipe_tables_error_stays(tables: Seq<HtmlTable>, k: int, n: int)
    requires
        0 <= k <= n,
        recipe_tables_scan(tables, k) is Err,
    ensures
        recipe_tables_scan(tables, n) == recipe_tables_scan(tables, k),
    decreases n - k,
{
    if k < n {
        lemma_recipe_tables_error_stays(tables, k, n - 1);
    }
}

fn read_recipe_items(items: &Vec<HtmlItemAnchor>) -> (res: Vec<PrtsRecipeIngredient>)
    ensures
        res@.map_values(|i: PrtsRecipeIngredient| ingredient_view(i)) == recipe_items(items@),
{
    let mut res: Vec<PrtsRecipeIngredient> = Vec::new();
    let mut i: usize = 0;
    while i < items.len()
        invariant
            i <= items@.len(),
            res@.map_values(|x: PrtsRecipeIngredient| ingredient_view(x)) == recipe_items(items@.take(i as int)),
        decreases items@.len() - i,
    {
        let count = match parse_i64_text(items[i].text.as_str()) {
            Some(v) => v,
            None => 1,
        };
        let ghost before = res@;
        res.push(PrtsRecipeIngredient { item_name_zh: items[i].title.clone(), count });
        assert(res@.map_values(|x: PrtsRecipeIngredient| ingredient_view(x)) =~= before.map_values(
            |x: PrtsRecipeIngredient| ingredient_view(x),
        ).push(ingredient_view(res@.last())));
        assert(recipe_items(items@.take(i + 1)) =~= recipe_items(items@.take(i as int)).push(
            recipe_items(items@)[i as int],
        ));
        i += 1;
    }
    assert(items@.take(i as int) =~= items@);
    res
}

fn message_with_name(prefix: &str, name: &str, suffix: &str) -> (res: String)
    ensures
        res@ == prefix@ + name@ + suffix@,
{
    let mut m = prefix.to_string();
    m.append(name);
    m.append(suffix);
    m
}

fn recipe_from_cells(cells: &Vec<HtmlCell>, pos: &Vec<usize>, kind: &Option<String>) -> (res: Result<PrtsRecipeDefinition, String>)
    requires
        pos@.len() == 7,
        pos@.len() == td_cells(cells@).len(),
        forall|k: int|
            0 <= k < pos@.len() ==> pos@[k] < cells@.len() && cells@[pos@[k] as int] == #[trigger] td_cells(cells@)[k],
    ensures
        match recipe_from_tds(td_cells(cells@), opt_view(*kind)) {
            Err(m) => res matches Err(e) && e@ == m,
            Ok(r) => res matches Ok(d) && recipe_view(d) == r,
        },
{
    let ghost tds = td_cells(cells@);
    let c0 = &cells[pos[0]];
    let c1 = &cells[pos[1]];
    let c2 = &cells[pos[2]];
    let c3 = &cells[pos[3]];
    let c4 = &cells[pos[4]];
    let c5 = &cells[pos[5]];
    let c6 = &cells[pos[6]];
    assert(*c0 == tds[0] && *c1 == tds[1] && *c2 == tds[2] && *c3 == tds[3]);
    assert(*c4 == tds[4] && *c5 == tds[5] && *c6 == tds[6]);
    let level = match parse_i64_text(c0.text.as_str()) {
        Some(v) => v,
        None => {
            return Err("recipe row is missing workshop level".to_string());
        },
    };
    if c1.items.len() == 0 || c2.items.len() == 0 {
        return Err("recipe cell does not contain any item anchors".to_string());
    }
    let output = c2.items[0].title.clone();
    let lmd = match parse_i64_text(c3.text.as_str()) {
        Some(v) => v,
        None => {
            return Err(message_with_name("recipe ", output.as_str(), " is missing LMD cost"));
        },
    };
    let mood = match parse_i64_text(c4.text.as_str()) {
        Some(v) => v,
        None => {
            return Err(message_with_name("recipe ", output.as_str(), " is missing mood cost"));
        },
    };
    let recipe_kind = match kind {
        Some(k) => k.clone(),
        None => "未分类".to_string(),
    };
    let ingredients = read_recipe_items(&c1.items);
    Ok(
        PrtsRecipeDefinition {
            recipe_kind,
            workshop_level: level,
            output_name_zh: output,
            ingredients,
            lmd_cost: lmd,
            mood_cost: mood,
            byproduct_rate_text: c5.text.clone(),
            unlock_condition: normalize_optional_text(c6.text.as_str()),
        },
    )
}

fn scan_recipe_table(table: &HtmlTable, recipes: &mut Vec<PrtsRecipeDefinition>) -> (res: Result<(), String>)
    ensures
        match recipe_table_scan(*table, table.rows@.len() as int, recipe_views(old(recipes)@)) {
            Err(m) => res matches Err(e) && e@ == m,
            Ok((_, rs)) => res is Ok && recipe_views(final(recipes)@) == rs,
        },
{
    let ghost acc = recipe_views(recipes@);
    let mut kind: Option<String> = None;
    let mut j: usize = 0;
    while j < table.rows.len()
        invariant
            j <= table.rows@.len(),
            acc == recipe_views(old(recipes)@),
            recipe_table_scan(*table, j as int, acc) == Ok::<
                (
                    Option<Seq<char>>,
                    Seq<(Seq<char>, i64, Seq<char>, Seq<(Seq<char>, i64)>, i64, i64, Seq<char>, Option<Seq<char>>)>,
                ),
                Seq<char>,
            >((opt_view(kind), recipe_views(recipes@))),
        decreases table.rows@.len() - j,
    {
        let row = &table.rows[j];
        match find_section_header(&row.cells) {
            Some(t) => {
                if !t.as_str().is_empty() {
                    kind = Some(t);
                }
            },
            None => {
                let pos = td_positions(&row.cells);
                if pos.len() == 7 {
                    match recipe_from_cells(&row.cells, &pos, &kind) {
                        Err(e) => {
                            proof {
                                assert(*row == table.rows@[j as int]);
                                assert(recipe_row_step(*row, opt_view(kind), recipe_views(recipes@)) == Err::<
                                    (
                                        Option<Seq<char>>,
                                        Seq<
                                            (
                                                Seq<char>,
                                                i64,
                                                Seq<char>,
                                                Seq<(Seq<char>, i64)>,
                                                i64,
                                                i64,
                                                Seq<char>,
                                                Option<Seq<char>>,
                                            ),
                                        >,
                                    ),
                                    Seq<char>,
                                >(e@));
                                assert(recipe_table_scan(*table, j + 1, acc) == recipe_row_step(
                                    *row,
                                    opt_view(kind),
                                    recipe_views(recipes@),
                                ));
                                lemma_recipe_table_error_stays(*table, j + 1, table.rows@.len() as int, acc);
                                assert(recipe_table_scan(*table, table.rows@.len() as int, acc) is Err);
                            }
                            return Err(e);
                        },
                        Ok(d) => {
                            let ghost before = recipes@;
                            recipes.push(d);
                            assert(recipe_views(recipes@) =~= recipe_views(before).push(recipe_view(d)));
                        },
                    }
                }
            },
        }
        j += 1;
    }
    Ok(())
}

/// The recipes of a workshop page, read from its model.
pub fn recipes_from_section(section: &HtmlSection) -> (res: Result<Vec<PrtsRecipeDefinition>, String>)
    ensures
        match recipes_of_section(*section) {
            Err(m) => res matches Err(e) && e@ == m,
            Ok(rs) => res matches Ok(v) && recipe_views(v@) == rs,
        },
{
    let mut recipes: Vec<PrtsRecipeDefinition> = Vec::new();
    let mut i: usize = 0;
    assert(recipe_views(recipes@) =~= seq![]);
    while i < section.tables.len()
        invariant
            i <= section.tables@.len(),
            recipe_tables_scan(section.tables@, i as int) == Ok::<
                Seq<(Seq<char>, i64, Seq<char>, Seq<(Seq<char>, i64)>, i64, i64, Seq<char>, Option<Seq<char>>)>,
                Seq<char>,
            >(recipe_views(recipes@)),
        decreases section.tables@.len() - i,
    {
        let table = &section.tables[i];
        let t = table.text.as_str();
        if str_contains(t, "加工站等级") && str_contains(t, "所需原料") && str_contains(t, "产品") {
            match scan_recipe_table(table, &mut recipes) {
                Err(e) => {
                    proof {
                        lemma_recipe_tables_error_stays(section.tables@, i + 1, section.tables@.len() as int);
                    }
                    return Err(e);
                },
                Ok(()) => {},
            }
        }
        i += 1;
    }
    if recipes.len() == 0 {
        return Err("recipe index HTML does not contain any recipe rows".to_string());
    }
    Ok(recipes)
}

// ---------------------------------------------------------------------------
// growth materials

/// A growth row of an operator: what is grown (`elite_promotion`,
/// `skill_upgrade` or `skill_mastery`), the stage, the material slot, the
/// unlock condition, and the material links (title and count text; the
/// application reads the counts).
pub struct PrtsOperatorGrowthDefinition {
    pub operator_id: String,
    pub growth_kind: String,
    pub stage_key: String,
    pub stage_label: String,
    pub material_slot_key: String,
    pub material_slot_label: String,
    pub unlock_condition: Option<String>,
    pub materials: Vec<HtmlItemAnchor>,
}

pub open spec fn anchor_views(s: Seq<HtmlItemAnchor>) -> Seq<(Seq<char>, Seq<char>)> {
    s.map_values(|a: HtmlItemAnchor| (a.title@, a.text@))
}

/// A growth row before its position is known: the stage key, where the
/// label gives one, else the prefix of the key that the position makes.
pub open spec fn growth_part(
    kind: Seq<char>,
    key: Option<Seq<char>>,
    fallback: Seq<char>,
    label: Seq<char>,
    slot_key: Seq<char>,
    slot_label: Seq<char>,
    unlock: Option<Seq<char>>,
    mats: Seq<(Seq<char>, Seq<char>)>,
) -> (Seq<char>, Option<Seq<char>>, Seq<char>, Seq<char>, Seq<char>, Seq<char>, Option<Seq<char>>, Seq<(Seq<char>, Seq<char>)>) {
    (kind, key, fallback, label, slot_key, slot_label, unlock, mats)
}

/// The growth rows with their keys: a row at position `k` (from zero)
/// without a key of its own takes the prefix and `k + 1`.
pub open spec fn growths_final(
    operator_id: Seq<char>,
    parts: Seq<(Seq<char>, Option<Seq<char>>, Seq<char>, Seq<char>, Seq<char>, Seq<char>, Option<Seq<char>>, Seq<(Seq<char>, Seq<char>)>)>,
) -> Seq<(Seq<char>, Seq<char>, Seq<char>, Seq<char>, Seq<char>, Seq<char>, Option<Seq<char>>, Seq<(Seq<char>, Seq<char>)>)> {
    Seq::new(
        parts.len(),
        |k: int|
            {
                let p = parts[k];
                (
                    operator_id,
                    p.0,
                    match p.1 {
                        Some(x) => x,
                        None => p.2 + decimal((k + 1) as nat),
                    },
                    p.3,
                    p.4,
                    p.5,
                    p.6,
                    p.7,
                )
            },
    )
}

pub open spec fn growth_view(g: PrtsOperatorGrowthDefinition) -> (Seq<char>, Seq<char>, Seq<char>, Seq<char>, Seq<char>, Seq<char>, Option<Seq<char>>, Seq<(Seq<char>, Seq<char>)>) {
    (
        g.operator_id@,
        g.growth_kind@,
        g.stage_key@,
        g.stage_label@,
        g.material_slot_key@,
        g.material_slot_label@,
        opt_view(g.unlock_condition),
        anchor_views(g.materials@),
    )
}

pub open spec fn growth_views(gs: Seq<PrtsOperatorGrowthDefinition>) -> Seq<(Seq<char>, Seq<char>, Seq<char>, Seq<char>, Seq<char>, Seq<char>, Option<Seq<char>>, Seq<(Seq<char>, Seq<char>)>)> {
    gs.map_values(|g: PrtsOperatorGrowthDefinition| growth_view(g))
}

pub open spec fn no_growth_items_message() -> Seq<char> {
    "operator growth cell does not contain any item anchors"@
}

/// An elite row: a `th` label naming an elite stage and a `td` of
/// materials; other rows are passed over (`None`).
pub open spec fn elite_row_part(row: HtmlRow) -> Option<Result<(Seq<char>, Option<Seq<char>>, Seq<char>, Seq<char>, Seq<char>, Seq<char>, Option<Seq<char>>, Seq<(Seq<char>, Seq<char>)>), Seq<char>>> {
    let cells = row.cells@;
    if cells.len() != 2 || cells[0].name@ != "th"@ || cells[1].name@ != "td"@ {
        None
    } else if !contains_sub(cells[0].text@, "精英阶段"@) {
        None
    } else if cells[1].items@.len() == 0 {
        Some(Err(no_growth_items_message()))
    } else {
        let label = cells[0].text@;
        Some(
            Ok(
                growth_part(
                    "elite_promotion"@,
                    two_part("elite_"@, arrow_values(kept_chars(label, true))),
                    "elite_row_"@,
                    label,
                    "promotion"@,
                    "精英化"@,
                    None,
                    anchor_views(cells[1].items@),
                ),
            ),
        )
    }
}

pub open spec fn elite_rows_scan(
    table: HtmlTable,
    n: int,
    acc: Seq<(Seq<char>, Option<Seq<char>>, Seq<char>, Seq<char>, Seq<char>, Seq<char>, Option<Seq<char>>, Seq<(Seq<char>, Seq<char>)>)>,
) -> Result<Seq<(Seq<char>, Option<Seq<char>>, Seq<char>, Seq<char>, Seq<char>, Seq<char>, Option<Seq<char>>, Seq<(Seq<char>, Seq<char>)>)>, Seq<char>>
    decreases n,
{
    if n <= 0 {
        Ok(acc)
    } else {
        match elite_rows_scan(table, n - 1, acc) {
            Err(m) => Err(m),
            Ok(ps) => match elite_row_part(table.rows@[n - 1]) {
                None => Ok(ps),
                Some(Err(m)) => Err(m),
                Some(Ok(p)) => Ok(ps.push(p)),
            },
        }
    }
}

pub open spec fn elite_tables_scan(tables: Seq<HtmlTable>, n: int) -> Result<Seq<(Seq<char>, Option<Seq<char>>, Seq<char>, Seq<char>, Seq<char>, Seq<char>, Option<Seq<char>>, Seq<(Seq<char>, Seq<char>)>)>, Seq<char>>
    decreases n,
{
    if n <= 0 {
        Ok(seq![])
    } else {
        match elite_tables_scan(tables, n - 1) {
            Err(m) => Err(m),
            Ok(ps) => elite_rows_scan(tables[n - 1], tables[n - 1].rows@.len() as int, ps),
        }
    }
}

/// The elite promotion rows of an operator's elite section; none where the
/// section says the operator cannot be promoted.
pub open spec fn elite_growths_of(section: HtmlSection, operator_id: Seq<char>, page_title: Seq<char>) -> Result<Seq<(Seq<char>, Seq<char>, Seq<char>, Seq<char>, Seq<char>, Seq<char>, Option<Seq<char>>, Seq<(Seq<char>, Seq<char>)>)>, Seq<char>> {
    match elite_tables_scan(section.tables@, section.tables@.len() as int) {
        Err(m) => Err(m),
        Ok(ps) => if ps.len() > 0 {
            Ok(growths_final(operator_id, ps))
        } else if contains_sub(section.text@, "无法精英化"@) {
            Ok(seq![])
        } else {
            Err("operator "@ + page_title + " elite growth section does not contain any rows"@)
        },
    }
}

/// The headers of mastery slots: texts that start with `第` and name a
/// skill.
pub open spec fn slot_headers(texts: Seq<Seq<char>>) -> Seq<Seq<char>>
    decreases texts.len(),
{
    if texts.len() == 0 {
        seq![]
    } else {
        let p = slot_headers(texts.drop_last());
        let t = texts.last();
        if t.len() > 0 && t[0] == '第' && contains_sub(t, "技能"@) {
            p.push(t)
        } else {
            p
        }
    }
}

pub open spec fn cell_texts(cells: Seq<HtmlCell>) -> Seq<Seq<char>> {
    cells.map_values(|c: HtmlCell| c.text@)
}

/// One cell of a skill row: a `th` is the label of the next `td`; a `td`
/// under a label holds that stage's materials (an upgrade stage must name
/// `→`); a mastery stage takes the next slot.
pub open spec fn skill_cell_step(
    cell: HtmlCell,
    mastery: bool,
    unlock: Option<Seq<char>>,
    slots: Seq<Seq<char>>,
    pending: Option<Seq<char>>,
    pair: int,
    ps: Seq<(Seq<char>, Option<Seq<char>>, Seq<char>, Seq<char>, Seq<char>, Seq<char>, Option<Seq<char>>, Seq<(Seq<char>, Seq<char>)>)>,
) -> Result<(Option<Seq<char>>, int, Seq<(Seq<char>, Option<Seq<char>>, Seq<char>, Seq<char>, Seq<char>, Seq<char>, Option<Seq<char>>, Seq<(Seq<char>, Seq<char>)>)>), Seq<char>> {
    if cell.name@ == "th"@ {
        Ok((Some(cell.text@), pair, ps))
    } else if cell.name@ == "td"@ {
        match pending {
            None => Ok((None, pair, ps)),
            Some(label) => if cell.items@.len() == 0 {
                Err(no_growth_items_message())
            } else if !mastery {
                if !contains_sub(label, seq!['→']) {
                    Ok((None, pair, ps))
                } else {
                    Ok(
                        (
                            None,
                            pair,
                            ps.push(
                                growth_part(
                                    "skill_upgrade"@,
                                    two_part("skill_"@, arrow_values(label)),
                                    "skill_upgrade_row_"@,
                                    label,
                                    "global"@,
                                    "通用"@,
                                    unlock,
                                    anchor_views(cell.items@),
                                ),
                            ),
                        ),
                    )
                }
            } else {
                let digits = kept_chars(label, false);
                Ok(
                    (
                        None,
                        pair + 1,
                        ps.push(
                            growth_part(
                                "skill_mastery"@,
                                if digits.len() == 0 {
                                    None
                                } else {
                                    Some("mastery_"@ + digits)
                                },
                                "mastery_row_"@,
                                label,
                                "skill_"@ + decimal((pair + 1) as nat),
                                if pair < slots.len() {
                                    slots[pair]
                                } else {
                                    "第"@ + decimal((pair + 1) as nat) + "技能"@
                                },
                                unlock,
                                anchor_views(cell.items@),
                            ),
                        ),
                    ),
                )
            },
        }
    } else {
        Ok((pending, pair, ps))
    }
}

pub open spec fn skill_cells_scan(
    cells: Seq<HtmlCell>,
    n: int,
    mastery: bool,
    unlock: Option<Seq<char>>,
    slots: Seq<Seq<char>>,
    acc: Seq<(Seq<char>, Option<Seq<char>>, Seq<char>, Seq<char>, Seq<char>, Seq<char>, Option<Seq<char>>, Seq<(Seq<char>, Seq<char>)>)>,
) -> Result<(Option<Seq<char>>, int, Seq<(Seq<char>, Option<Seq<char>>, Seq<char>, Seq<char>, Seq<char>, Seq<char>, Option<Seq<char>>, Seq<(Seq<char>, Seq<char>)>)>), Seq<char>>
    decreases n,
{
    if n <= 0 {
        Ok((None, 0, acc))
    } else {
        match skill_cells_scan(cells, n - 1, mastery, unlock, slots, acc) {
            Err(m) => Err(m),
            Ok((pending, pair, ps)) => skill_cell_step(cells[n - 1], mastery, unlock, slots, pending, pair, ps),
        }
    }
}

/// One row of the skill table: header rows switch between upgrades and
/// mastery, set the unlock condition, or name the mastery slots; other
/// rows hold stages.
pub open spec fn skill_row_step(
    row: HtmlRow,
    mastery: bool,
    unlock: Option<Seq<char>>,
    slots: Seq<Seq<char>>,
    ps: Seq<(Seq<char>, Option<Seq<char>>, Seq<char>, Seq<char>, Seq<char>, Seq<char>, Option<Seq<char>>, Seq<(Seq<char>, Seq<char>)>)>,
) -> Result<(bool, Option<Seq<char>>, Seq<Seq<char>>, Seq<(Seq<char>, Option<Seq<char>>, Seq<char>, Seq<char>, Seq<char>, Seq<char>, Option<Seq<char>>, Seq<(Seq<char>, Seq<char>)>)>), Seq<char>> {
    let cells = row.cells@;
    if cells.len() == 0 {
        Ok((mastery, unlock, slots, ps))
    } else if td_cells(cells).len() == 0 {
        let row_text = norm(join(cell_texts(cells), seq![' ']));
        if row_text == "技能升级"@ {
            Ok((false, None, seq![], ps))
        } else if contains_sub(row_text, "专精训练"@) {
            Ok((true, Some(row_text), seq![], ps))
        } else if contains_sub(row_text, "达到精英阶段"@) && contains_sub(row_text, "解锁"@) {
            Ok((mastery, Some(row_text), slots, ps))
        } else if slot_headers(cell_texts(cells)).len() > 0 {
            Ok((mastery, unlock, slot_headers(cell_texts(cells)), ps))
        } else {
            Ok((mastery, unlock, slots, ps))
        }
    } else {
        match skill_cells_scan(cells, cells.len() as int, mastery, unlock, slots, ps) {
            Err(m) => Err(m),
            Ok((_, _, ps2)) => Ok((mastery, unlock, slots, ps2)),
        }
    }
}

pub open spec fn skill_rows_scan(table: HtmlTable, n: int) -> Result<(bool, Option<Seq<char>>, Seq<Seq<char>>, Seq<(Seq<char>, Option<Seq<char>>, Seq<char>, Seq<char>, Seq<char>, Seq<char>, Option<Seq<char>>, Seq<(Seq<char>, Seq<char>)>)>), Seq<char>>
    decreases n,
{
    if n <= 0 {
        Ok((false, None, seq![], seq![]))
    } else {
        match skill_rows_scan(table, n - 1) {
            Err(m) => Err(m),
            Ok((mastery, unlock, slots, ps)) => skill_row_step(table.rows@[n - 1], mastery, unlock, slots, ps),
        }
    }
}

/// The skill upgrade and mastery rows of an operator's skill section (its
/// first table); none where the section says the operator has no skill.
pub open spec fn skill_growths_of(section: HtmlSection, operator_id: Seq<char>, page_title: Seq<char>) -> Result<Seq<(Seq<char>, Seq<char>, Seq<char>, Seq<char>, Seq<char>, Seq<char>, Option<Seq<char>>, Seq<(Seq<char>, Seq<char>)>)>, Seq<char>> {
    if section.tables@.len() == 0 {
        if contains_sub(section.text@, "没有技能"@) {
            Ok(seq![])
        } else {
            Err("operator "@ + page_title + " skill growth section does not contain a table"@)
        }
    } else {
        match skill_rows_scan(section.tables@[0], section.tables@[0].rows@.len() as int) {
            Err(m) => Err(m),
            Ok((_, _, _, ps)) => if ps.len() > 0 {
                Ok(growths_final(operator_id, ps))
            } else if contains_sub(section.text@, "没有技能"@) {
                Ok(seq![])
            } else {
                Err("operator "@ + page_title + " skill growth section does not contain any rows"@)
            },
        }
    }
}

struct GrowthPart {
    kind: String,
    key: Option<String>,
    fallback: String,
    label: String,
    slot_key: String,
    slot_label: String,
    unlock: Option<String>,
    mats: Vec<HtmlItemAnchor>,
}

spec fn part_view(p: GrowthPart) -> (Seq<char>, Option<Seq<char>>, Seq<char>, Seq<char>, Seq<char>, Seq<char>, Option<Seq<char>>, Seq<(Seq<char>, Seq<char>)>) {
    growth_part(p.kind@, opt_view(p.key), p.fallback@, p.label@, p.slot_key@, p.slot_label@, opt_view(p.unlock), anchor_views(p.mats@))
}

spec fn part_views(s: Seq<GrowthPart>) -> Seq<(Seq<char>, Option<Seq<char>>, Seq<char>, Seq<char>, Seq<char>, Seq<char>, Option<Seq<char>>, Seq<(Seq<char>, Seq<char>)>)> {
    s.map_values(|p: GrowthPart| part_view(p))
}

fn clone_anchors(v: &Vec<HtmlItemAnchor>) -> (res: Vec<HtmlItemAnchor>)
    ensures
        anchor_views(res@) == anchor_views(v@),
{
    let mut res: Vec<HtmlItemAnchor> = Vec::new();
    let mut i: usize = 0;
    while i < v.len()
        invariant
            i <= v@.len(),
            anchor_views(res@) == anchor_views(v@.take(i as int)),
        decreases v@.len() - i,
    {
        let ghost before = res@;
        res.push(HtmlItemAnchor { title: v[i].title.clone(), text: v[i].text.clone() });
        assert(anchor_views(res@) =~= anchor_views(before).push((v@[i as int].title@, v@[i as int].text@)));
        assert(anchor_views(v@.take(i + 1)) =~= anchor_views(v@.take(i as int)).push(
            (v@[i as int].title@, v@[i as int].text@),
        ));
        i += 1;
    }
    assert(v@.take(i as int) =~= v@);
    res
}

fn clone_opt(o: &Option<String>) -> (res: Option<String>)
    ensures
        opt_view(res) == opt_view(*o),
{
    match o {
        Some(s) => Some(s.clone()),
        None => None,
    }
}

fn concat(a: &str, b: &str) -> (res: String)
    ensures
        res@ == a@ + b@,
{
    let mut s = a.to_string();
    s.append(b);
    s
}

/// Gives each growth row its key and the operator's id.
fn finalize_growths(operator_id: &str, parts: &Vec<GrowthPart>) -> (res: Vec<PrtsOperatorGrowthDefinition>)
    ensures
        growth_views(res@) == growths_final(operator_id@, part_views(parts@)),
{
    let mut res: Vec<PrtsOperatorGrowthDefinition> = Vec::new();
    let mut k: usize = 0;
    while k < parts.len()
        invariant
            k <= parts@.len(),
            growth_views(res@) == growths_final(operator_id@, part_views(parts@)).take(k as int),
        decreases parts@.len() - k,
    {
        let p = &parts[k];
        let key = match &p.key {
            Some(x) => x.clone(),
            None => {
                let n = u64_to_decimal((k + 1) as u64);
                concat(p.fallback.as_str(), n.as_str())
            },
        };
        let row = PrtsOperatorGrowthDefinition {
            operator_id: operator_id.to_string(),
            growth_kind: p.kind.clone(),
            stage_key: key,
            stage_label: p.label.clone(),
            material_slot_key: p.slot_key.clone(),
            material_slot_label: p.slot_label.clone(),
            unlock_condition: clone_opt(&p.unlock),
            materials: clone_anchors(&p.mats),
        };
        let ghost before = res@;
        res.push(row);
        assert(growth_views(res@) =~= growth_views(before).push(growth_view(row)));
        assert(growths_final(operator_id@, part_views(parts@)).take(k + 1) =~= growths_final(
            operator_id@,
            part_views(parts@),
        ).take(k as int).push(growths_final(operator_id@, part_views(parts@))[k as int]));
        k += 1;
    }
    assert(growths_final(operator_id@, part_views(parts@)).take(k as int) =~= growths_final(
        operator_id@,
        part_views(parts@),
    ));
    res
}

proof fn lemma_elite_rows_error_stays(
    table: HtmlTable,
    k: int,
    n: int,
    acc: Seq<(Seq<char>, Option<Seq<char>>, Seq<char>, Seq<char>, Seq<char>, Seq<char>, Option<Seq<char>>, Seq<(Seq<char>, Seq<char>)>)>,
)
    requires
        0 <= k <= n,
        elite_rows_scan(table, k, acc) is Err,
    ensures
        elite_rows_scan(table, n, acc) == elite_rows_scan(table, k, acc),
    decreases n - k,
{
    if k < n {
        lemma_elite_rows_error_stays(table, k, n - 1, acc);
    }
}

proof fn lemma_elite_tables_error_stays(tables: Seq<HtmlTable>, k: int, n: int)
    requires
        0 <= k <= n,
        elite_tables_scan(tables, k) is Err,
    ensures
        elite_tables_scan(tables, n) == elite_tables_scan(tables, k),
    decreases n - k,
{
    if k < n {
        lemma_elite_tables_error_stays(tables, k, n - 1);
    }
}

fn elite_table_parts(table: &HtmlTable, parts: &mut Vec<GrowthPart>) -> (res: Result<(), String>)
    ensures
        match elite_rows_scan(*table, table.rows@.len() as int, part_views(old(parts)@)) {
            Err(m) => res matches Err(e) && e@ == m,
            Ok(ps) => res is Ok && part_views(final(parts)@) == ps,
        },
{
    let ghost acc = part_views(parts@);
    let mut j: usize = 0;
    while j < table.rows.len()
        invariant
            j <= table.rows@.len(),
            acc == part_views(old(parts)@),
            elite_rows_scan(*table, j as int, acc) == Ok::<
                Seq<(Seq<char>, Option<Seq<char>>, Seq<char>, Seq<char>, Seq<char>, Seq<char>, Option<Seq<char>>, Seq<(Seq<char>, Seq<char>)>)>,
                Seq<char>,
            >(part_views(parts@)),
        decreases table.rows@.len() - j,
    {
        let row = &table.rows[j];
        assert(*row == table.rows@[j as int]);
        let cells = &row.cells;
        if cells.len() == 2 && str_eq(cells[0].name.as_str(), "th") && str_eq(cells[1].name.as_str(), "td")
            && str_contains(cells[0].text.as_str(), "精英阶段") {
            if cells[1].items.len() == 0 {
                proof {
                    assert(elite_rows_scan(*table, j + 1, acc) is Err);
                    lemma_elite_rows_error_stays(*table, j + 1, table.rows@.len() as int, acc);
                }
                return Err("operator growth cell does not contain any item anchors".to_string());
            }
            let label = cells[0].text.clone();
            let part = GrowthPart {
                kind: "elite_promotion".to_string(),
                key: elite_stage_key(label.as_str()),
                fallback: "elite_row_".to_string(),
                label,
                slot_key: "promotion".to_string(),
                slot_label: "精英化".to_string(),
                unlock: None,
                mats: clone_anchors(&cells[1].items),
            };
            let ghost before = parts@;
            parts.push(part);
            assert(part_views(parts@) =~= part_views(before).push(part_view(part)));
        }
        j += 1;
    }
    Ok(())
}

fn elite_parts(section: &HtmlSection) -> (res: Result<Vec<GrowthPart>, String>)
    ensures
        match elite_tables_scan(section.tables@, section.tables@.len() as int) {
            Err(m) => res matches Err(e) && e@ == m,
            Ok(ps) => res matches Ok(v) && part_views(v@) == ps,
        },
{
    let mut parts: Vec<GrowthPart> = Vec::new();
    assert(part_views(parts@) =~= seq![]);
    let mut i: usize = 0;
    while i < section.tables.len()
        invariant
            i <= section.tables@.len(),
            elite_tables_scan(section.tables@, i as int) == Ok::<
                Seq<(Seq<char>, Option<Seq<char>>, Seq<char>, Seq<char>, Seq<char>, Seq<char>, Option<Seq<char>>, Seq<(Seq<char>, Seq<char>)>)>,
                Seq<char>,
            >(part_views(parts@)),
        decreases section.tables@.len() - i,
    {
        match elite_table_parts(&section.tables[i], &mut parts) {
            Err(e) => {
                proof {
                    lemma_elite_tables_error_stays(section.tables@, i + 1, section.tables@.len() as int);
                }
                return Err(e);
            },
            Ok(()) => {},
        }
        i += 1;
    }
    Ok(parts)
}

/// The elite promotion rows of an operator's elite section, read from its
/// model.
pub fn elite_growths_from_section(section: &HtmlSection, operator_id: &str, page_title: &str) -> (res: Result<Vec<PrtsOperatorGrowthDefinition>, String>)
    ensures
        match elite_growths_of(*section, operator_id@, page_title@) {
            Err(m) => res matches Err(e) && e@ == m,
            Ok(gs) => res matches Ok(v) && growth_views(v@) == gs,
        },
{
    let parts = match elite_parts(section) {
        Ok(p) => p,
        Err(e) => {
            return Err(e);
        },
    };
    if parts.len() > 0 {
        Ok(finalize_growths(operator_id, &parts))
    } else if str_contains(section.text.as_str(), "无法精英化") {
        let v: Vec<PrtsOperatorGrowthDefinition> = Vec::new();
        assert(growth_views(v@) =~= seq![]);
        Ok(v)
    } else {
        Err(message_with_name("operator ", page_title, " elite growth section does not contain any rows"))
    }
}

proof fn lemma_skill_cells_error_stays(
    cells: Seq<HtmlCell>,
    k: int,
    n: int,
    mastery: bool,
    unlock: Option<Seq<char>>,
    slots: Seq<Seq<char>>,
    acc: Seq<(Seq<char>, Option<Seq<char>>, Seq<char>, Seq<char>, Seq<char>, Seq<char>, Option<Seq<char>>, Seq<(Seq<char>, Seq<char>)>)>,
)
    requires
        0 <= k <= n,
        skill_cells_scan(cells, k, mastery, unlock, slots, acc) is Err,
    ensures
        skill_cells_scan(cells, n, mastery, unlock, slots, acc) == skill_cells_scan(cells, k, mastery, unlock, slots, acc),
    decreases n - k,
{
    if k < n {
        lemma_skill_cells_error_stays(cells, k, n - 1, mastery, unlock, slots, acc);
    }
}

proof fn lemma_skill_rows_error_stays(table: HtmlTable, k: int, n: int)
    requires
        0 <= k <= n,
        skill_rows_scan(table, k) is Err,
    ensures
        skill_rows_scan(table, n) == skill_rows_scan(table, k),
    decreases n - k,
{
    if k < n {
        lemma_skill_rows_error_stays(table, k, n - 1);
    }
}

fn texts_of(cells: &Vec<HtmlCell>) -> (res: Vec<String>)
    ensures
        string_views(res@) == cell_texts(cells@),
{
    let mut res: Vec<String> = Vec::new();
    let mut i: usize = 0;
    while i < cells.len()
        invariant
            i <= cells@.len(),
            string_views(res@) == cell_texts(cells@.take(i as int)),
        decreases cells@.len() - i,
    {
        let ghost before = res@;
        res.push(cells[i].text.clone());
        assert(string_views(res@) =~= string_views(before).push(cells@[i as int].text@));
        assert(cell_texts(cells@.take(i + 1)) =~= cell_texts(cells@.take(i as int)).push(cells@[i as int].text@));
        i += 1;
    }
    assert(cells@.take(i as int) =~= cells@);
    res
}

fn row_text_of(cells: &Vec<HtmlCell>) -> (res: String)
    ensures
        res@ == norm(join(cell_texts(cells@), seq![' '])),
{
    let texts = texts_of(cells);
    let joined = join_strings(texts.as_slice(), " ");
    proof {
        reveal_strlit(" ");
        assert(" "@ =~= seq![' ']);
    }
    normalize_text(joined.as_str())
}

fn slot_headers_of(cells: &Vec<HtmlCell>) -> (res: Vec<String>)
    ensures
        string_views(res@) == slot_headers(cell_texts(cells@)),
{
    let mut res: Vec<String> = Vec::new();
    let mut i: usize = 0;
    while i < cells.len()
        invariant
            i <= cells@.len(),
            string_views(res@) == slot_headers(cell_texts(cells@.take(i as int))),
        decreases cells@.len() - i,
    {
        assert(cell_texts(cells@.take(i + 1)).drop_last() =~= cell_texts(cells@.take(i as int)));
        assert(cell_texts(cells@.take(i + 1)).last() == cells@[i as int].text@);
        let t = &cells[i].text;
        let first_ok = match t.as_str().chars().next() {
            Some(c) => c == '第',
            None => false,
        };
        if first_ok && str_contains(t.as_str(), "技能") {
            let ghost before = res@;
            res.push(t.clone());
            assert(string_views(res@) =~= string_views(before).push(t@));
        }
        i += 1;
    }
    assert(cells@.take(i as int) =~= cells@);
    res
}

fn skill_table_parts(table: &HtmlTable) -> (res: Result<Vec<GrowthPart>, String>)
    ensures
        match skill_rows_scan(*table, table.rows@.len() as int) {
            Err(m) => res matches Err(e) && e@ == m,
            Ok((_, _, _, ps)) => res matches Ok(v) && part_views(v@) == ps,
        },
{
    let mut mastery = false;
    let mut unlock: Option<String> = None;
    let mut slots: Vec<String> = Vec::new();
    let mut parts: Vec<GrowthPart> = Vec::new();
    assert(part_views(parts@) =~= seq![]);
    assert(string_views(slots@) =~= seq![]);
    let mut j: usize = 0;
    while j < table.rows.len()
        invariant
            j <= table.rows@.len(),
            skill_rows_scan(*table, j as int) == Ok::<
                (
                    bool,
                    Option<Seq<char>>,
                    Seq<Seq<char>>,
                    Seq<(Seq<char>, Option<Seq<char>>, Seq<char>, Seq<char>, Seq<char>, Seq<char>, Option<Seq<char>>, Seq<(Seq<char>, Seq<char>)>)>,
                ),
                Seq<char>,
            >((mastery, opt_view(unlock), string_views(slots@), part_views(parts@))),
        decreases table.rows@.len() - j,
    {
        let row = &table.rows[j];
        assert(*row == table.rows@[j as int]);
        let cells = &row.cells;
        if cells.len() > 0 {
            let pos = td_positions(cells);
            if pos.len() == 0 {
                let row_text = row_text_of(cells);
                let rt = row_text.as_str();
                if str_eq(rt, "技能升级") {
                    mastery = false;
                    unlock = None;
                    slots = Vec::new();
                    assert(string_views(slots@) =~= seq![]);
                } else if str_contains(rt, "专精训练") {
                    mastery = true;
                    unlock = Some(row_text.clone());
                    slots = Vec::new();
                    assert(string_views(slots@) =~= seq![]);
                } else if str_contains(rt, "达到精英阶段") && str_contains(rt, "解锁") {
                    unlock = Some(row_text.clone());
                } else {
                    let headers = slot_headers_of(cells);
                    if headers.len() > 0 {
                        slots = headers;
                    }
                }
            } else {
                let ghost acc = part_views(parts@);
                let ghost scan_before = skill_rows_scan(*table, j as int);
                let mut pending: Option<String> = None;
                let mut pair: usize = 0;
                let mut c: usize = 0;
                while c < cells.len()
                    invariant
                        c <= cells@.len(),
                        pair <= c,
                        j < table.rows@.len(),
                        *row == table.rows@[j as int],
                        *cells == row.cells,
                        td_cells(cells@).len() > 0,
                        scan_before == skill_rows_scan(*table, j as int),
                        scan_before == Ok::<
                            (
                                bool,
                                Option<Seq<char>>,
                                Seq<Seq<char>>,
                                Seq<(Seq<char>, Option<Seq<char>>, Seq<char>, Seq<char>, Seq<char>, Seq<char>, Option<Seq<char>>, Seq<(Seq<char>, Seq<char>)>)>,
                            ),
                            Seq<char>,
                        >((mastery, opt_view(unlock), string_views(slots@), acc)),
                        skill_cells_scan(cells@, c as int, mastery, opt_view(unlock), string_views(slots@), acc) == Ok::<
                            (
                                Option<Seq<char>>,
                                int,
                                Seq<(Seq<char>, Option<Seq<char>>, Seq<char>, Seq<char>, Seq<char>, Seq<char>, Option<Seq<char>>, Seq<(Seq<char>, Seq<char>)>)>,
                            ),
                            Seq<char>,
                        >((opt_view(pending), pair as int, part_views(parts@))),
                    decreases cells@.len() - c,
                {
                    let cell = &cells[c];
                    assert(*cell == cells@[c as int]);
                    if str_eq(cell.name.as_str(), "th") {
                        pending = Some(cell.text.clone());
                    } else if str_eq(cell.name.as_str(), "td") {
                        let taken = pending;
                        pending = None;
                        match taken {
                            None => {},
                            Some(label) => {
                                if cell.items.len() == 0 {
                                    proof {
                                        assert(skill_cells_scan(cells@, c + 1, mastery, opt_view(unlock), string_views(slots@), acc) is Err);
                                        lemma_skill_cells_error_stays(cells@, c + 1, cells@.len() as int, mastery, opt_view(unlock), string_views(slots@), acc);
                                        assert(skill_row_step(*row, mastery, opt_view(unlock), string_views(slots@), acc) is Err);
                                        assert(skill_rows_scan(*table, j + 1) is Err);
                                        lemma_skill_rows_error_stays(*table, j + 1, table.rows@.len() as int);
                                    }
                                    return Err("operator growth cell does not contain any item anchors".to_string());
                                }
                                if !mastery {
                                    let has_arrow = str_contains(label.as_str(), "→");
                                    proof {
                                        reveal_strlit("→");
                                        assert("→"@ =~= seq!['→']);
                                    }
                                    if has_arrow {
                                        let part = GrowthPart {
                                            kind: "skill_upgrade".to_string(),
                                            key: skill_upgrade_stage_key(label.as_str()),
                                            fallback: "skill_upgrade_row_".to_string(),
                                            label,
                                            slot_key: "global".to_string(),
                                            slot_label: "通用".to_string(),
                                            unlock: clone_opt(&unlock),
                                            mats: clone_anchors(&cell.items),
                                        };
                                        let ghost before = parts@;
                                        parts.push(part);
                                        assert(part_views(parts@) =~= part_views(before).push(part_view(part)));
                                    }
                                } else {
                                    let n = u64_to_decimal((pair + 1) as u64);
                                    let slot_key = concat("skill_", n.as_str());
                                    let slot_label = if pair < slots.len() {
                                        slots[pair].clone()
                                    } else {
                                        let mut t = concat("第", n.as_str());
                                        t.append("技能");
                                        t
                                    };
                                    let part = GrowthPart {
                                        kind: "skill_mastery".to_string(),
                                        key: mastery_stage_key(label.as_str()),
                                        fallback: "mastery_row_".to_string(),
                                        label,
                                        slot_key,
                                        slot_label,
                                        unlock: clone_opt(&unlock),
                                        mats: clone_anchors(&cell.items),
                                    };
                                    let ghost before = parts@;
                                    parts.push(part);
                                    assert(part_views(parts@) =~= part_views(before).push(part_view(part)));
                                    pair = pair + 1;
                                }
                            },
                        }
                    }
                    c += 1;
                }
                assert(skill_row_step(*row, mastery, opt_view(unlock), string_views(slots@), acc) == Ok::<
                    (
                        bool,
                        Option<Seq<char>>,
                        Seq<Seq<char>>,
                        Seq<(Seq<char>, Option<Seq<char>>, Seq<char>, Seq<char>, Seq<char>, Seq<char>, Option<Seq<char>>, Seq<(Seq<char>, Seq<char>)>)>,
                    ),
                    Seq<char>,
                >((mastery, opt_view(unlock), string_views(slots@), part_views(parts@))));
            }
        }
        j += 1;
    }
    Ok(parts)
}

/// The skill upgrade and mastery rows of an operator's skill section, read
/// from its model.
pub fn skill_growths_from_section(section: &HtmlSection, operator_id: &str, page_title: &str) -> (res: Result<Vec<PrtsOperatorGrowthDefinition>, String>)
    ensures
        match skill_growths_of(*section, operator_id@, page_title@) {
            Err(m) => res matches Err(e) && e@ == m,
            Ok(gs) => res matches Ok(v) && growth_views(v@) == gs,
        },
{
    if section.tables.len() == 0 {
        if str_contains(section.text.as_str(), "没有技能") {
            let v: Vec<PrtsOperatorGrowthDefinition> = Vec::new();
            assert(growth_views(v@) =~= seq![]);
            return Ok(v);
        }
        return Err(message_with_name("operator ", page_title, " skill growth section does not contain a table"));
    }
    let parts = match skill_table_parts(&section.tables[0]) {
        Ok(p) => p,
        Err(e) => {
            return Err(e);
        },
    };
    if parts.len() > 0 {
        Ok(finalize_growths(operator_id, &parts))
    } else if str_contains(section.text.as_str(), "没有技能") {
        let v: Vec<PrtsOperatorGrowthDefinition> = Vec::new();
        assert(growth_views(v@) =~= seq![]);
        Ok(v)
    } else {
        Err(message_with_name("operator ", page_title, " skill growth section does not contain any rows"))
    }
}

// ---------------------------------------------------------------------------
// base skills

/// A base skill of an operator, as its section lists it, numbered from one
/// across the section.
pub struct PrtsOperatorBuildingSkillDefinition {
    pub operator_id: String,
    pub condition_key: String,
    pub condition_label: String,
    pub skill_slot_label: Option<String>,
    pub room_type_key: String,
    pub room_type_label: String,
    pub skill_name: String,
    pub description: Option<String>,
    pub icon_alt: Option<String>,
    pub icon_url: Option<String>,
    pub sort_order: u64,
}

/// The key of an unlock condition on elite promotion, where the label
/// gives one.
pub open spec fn condition_key(label: Seq<char>) -> Option<Seq<char>> {
    if is_prefix("精英"@, label) && kept_chars(label, false).len() > 0 {
        Some("elite_"@ + kept_chars(label, false))
    } else {
        None
    }
}

pub open spec fn image_alt(cell: HtmlCell) -> Option<Seq<char>> {
    match cell.image {
        Some(i) => opt_view(i.alt),
        None => None,
    }
}

pub open spec fn image_src(cell: HtmlCell) -> Option<Seq<char>> {
    match cell.image {
        Some(i) => opt_view(i.src),
        None => None,
    }
}

/// One row of a base-skill table, given the slot label of the table's
/// header so far: a header row names the slot; a row of at least five
/// cells with a condition, a name and a room is a skill.
pub open spec fn building_row_step(
    row: HtmlRow,
    slot: Option<Seq<char>>,
    ps: Seq<((Seq<char>, Option<Seq<char>>, Option<Seq<char>>), (Seq<char>, Seq<char>, Seq<char>, Option<Seq<char>>), (Option<Seq<char>>, Option<Seq<char>>))>,
) -> (Option<Seq<char>>, Seq<((Seq<char>, Option<Seq<char>>, Option<Seq<char>>), (Seq<char>, Seq<char>, Seq<char>, Option<Seq<char>>), (Option<Seq<char>>, Option<Seq<char>>))>) {
    let cells = row.cells@;
    let texts = cell_texts(cells);
    if cells.len() == 0 {
        (slot, ps)
    } else if td_cells(cells).len() == 0 {
        let rt = norm(join(texts, seq![' ']));
        if contains_sub(rt, "条件"@) && contains_sub(rt, "房间"@) && contains_sub(rt, "描述"@) && texts.len() >= 3 {
            (Some(texts[2]), ps)
        } else {
            (slot, ps)
        }
    } else if cells.len() < 5 {
        (slot, ps)
    } else if texts[0].len() == 0 || texts[2].len() == 0 || texts[3].len() == 0 {
        (slot, ps)
    } else {
        (
            slot,
            ps.push(
                (
                    (texts[0], condition_key(texts[0]), slot),
                    (room_type_key(texts[3]), texts[3], texts[2], opt_norm(texts[4])),
                    (image_alt(cells[1]), image_src(cells[1])),
                ),
            ),
        )
    }
}

pub open spec fn building_rows_scan(
    table: HtmlTable,
    n: int,
    acc: Seq<((Seq<char>, Option<Seq<char>>, Option<Seq<char>>), (Seq<char>, Seq<char>, Seq<char>, Option<Seq<char>>), (Option<Seq<char>>, Option<Seq<char>>))>,
) -> (Option<Seq<char>>, Seq<((Seq<char>, Option<Seq<char>>, Option<Seq<char>>), (Seq<char>, Seq<char>, Seq<char>, Option<Seq<char>>), (Option<Seq<char>>, Option<Seq<char>>))>)
    decreases n,
{
    if n <= 0 {
        (None, acc)
    } else {
        let (slot, ps) = building_rows_scan(table, n - 1, acc);
        building_row_step(table.rows@[n - 1], slot, ps)
    }
}

pub open spec fn building_tables_scan(tables: Seq<HtmlTable>, n: int) -> Seq<((Seq<char>, Option<Seq<char>>, Option<Seq<char>>), (Seq<char>, Seq<char>, Seq<char>, Option<Seq<char>>), (Option<Seq<char>>, Option<Seq<char>>))>
    decreases n,
{
    if n <= 0 {
        seq![]
    } else {
        building_rows_scan(tables[n - 1], tables[n - 1].rows@.len() as int, building_tables_scan(tables, n - 1)).1
    }
}

/// The skills numbered: the one at position `k` (from zero) has sort order
/// `k + 1`, and takes `row_{k + 1}` as condition key where its label gives
/// none.
pub open spec fn building_final(
    operator_id: Seq<char>,
    parts: Seq<((Seq<char>, Option<Seq<char>>, Option<Seq<char>>), (Seq<char>, Seq<char>, Seq<char>, Option<Seq<char>>), (Option<Seq<char>>, Option<Seq<char>>))>,
) -> Seq<((Seq<char>, Seq<char>, Seq<char>, Option<Seq<char>>), (Seq<char>, Seq<char>, Seq<char>, Option<Seq<char>>), (Option<Seq<char>>, Option<Seq<char>>, int))> {
    Seq::new(
        parts.len(),
        |k: int|
            {
                let p = parts[k];
                (
                    (
                        operator_id,
                        match p.0.1 {
                            Some(x) => x,
                            None => "row_"@ + decimal((k + 1) as nat),
                        },
                        p.0.0,
                        p.0.2,
                    ),
                    p.1,
                    (p.2.0, p.2.1, k + 1),
                )
            },
    )
}

pub open spec fn building_view(b: PrtsOperatorBuildingSkillDefinition) -> ((Seq<char>, Seq<char>, Seq<char>, Option<Seq<char>>), (Seq<char>, Seq<char>, Seq<char>, Option<Seq<char>>), (Option<Seq<char>>, Option<Seq<char>>, int)) {
    (
        (b.operator_id@, b.condition_key@, b.condition_label@, opt_view(b.skill_slot_label)),
        (b.room_type_key@, b.room_type_label@, b.skill_name@, opt_view(b.description)),
        (opt_view(b.icon_alt), opt_view(b.icon_url), b.sort_order as int),
    )
}

pub open spec fn building_views(bs: Seq<PrtsOperatorBuildingSkillDefinition>) -> Seq<((Seq<char>, Seq<char>, Seq<char>, Option<Seq<char>>), (Seq<char>, Seq<char>, Seq<char>, Option<Seq<char>>), (Option<Seq<char>>, Option<Seq<char>>, int))> {
    bs.map_values(|b: PrtsOperatorBuildingSkillDefinition| building_view(b))
}

/// The base skills of an operator's section; none where the section says
/// there are none yet.
pub open spec fn building_skills_of(section: HtmlSection, operator_id: Seq<char>, page_title: Seq<char>) -> Result<Seq<((Seq<char>, Seq<char>, Seq<char>, Option<Seq<char>>), (Seq<char>, Seq<char>, Seq<char>, Option<Seq<char>>), (Option<Seq<char>>, Option<Seq<char>>, int))>, Seq<char>> {
    let ps = building_tables_scan(section.tables@, section.tables@.len() as int);
    if ps.len() > 0 {
        Ok(building_final(operator_id, ps))
    } else if contains_sub(section.text@, "后勤技能"@) && contains_sub(section.text@, "暂无"@) {
        Ok(seq![])
    } else {
        Err("operator "@ + page_title + " building skill section does not contain any rows"@)
    }
}

struct BuildingPart {
    condition_label: String,
    condition_key: Option<String>,
    slot: Option<String>,
    room_type_key: String,
    room_type_label: String,
    skill_name: String,
    description: Option<String>,
    icon_alt: Option<String>,
    icon_url: Option<String>,
}

spec fn building_part_view(p: BuildingPart) -> ((Seq<char>, Option<Seq<char>>, Option<Seq<char>>), (Seq<char>, Seq<char>, Seq<char>, Option<Seq<char>>), (Option<Seq<char>>, Option<Seq<char>>)) {
    (
        (p.condition_label@, opt_view(p.condition_key), opt_view(p.slot)),
        (p.room_type_key@, p.room_type_label@, p.skill_name@, opt_view(p.description)),
        (opt_view(p.icon_alt), opt_view(p.icon_url)),
    )
}

spec fn building_part_views(s: Seq<BuildingPart>) -> Seq<((Seq<char>, Option<Seq<char>>, Option<Seq<char>>), (Seq<char>, Seq<char>, Seq<char>, Option<Seq<char>>), (Option<Seq<char>>, Option<Seq<char>>))> {
    s.map_values(|p: BuildingPart| building_part_view(p))
}

fn image_attrs(cell: &HtmlCell) -> (res: (Option<String>, Option<String>))
    ensures
        opt_view(res.0) == image_alt(*cell),
        opt_view(res.1) == image_src(*cell),
{
    match &cell.image {
        Some(i) => (clone_opt(&i.alt), clone_opt(&i.src)),
        None => (None, None),
    }
}

fn building_table_parts(table: &HtmlTable, parts: &mut Vec<BuildingPart>)
    ensures
        building_part_views(final(parts)@) == building_rows_scan(
            *table,
            table.rows@.len() as int,
            building_part_views(old(parts)@),
        ).1,
{
    let ghost acc = building_part_views(parts@);
    let mut slot: Option<String> = None;
    let mut j: usize = 0;
    while j < table.rows.len()
        invariant
            j <= table.rows@.len(),
            acc == building_part_views(old(parts)@),
            building_rows_scan(*table, j as int, acc) == (opt_view(slot), building_part_views(parts@)),
        decreases table.rows@.len() - j,
    {
        let row = &table.rows[j];
        assert(*row == table.rows@[j as int]);
        let cells = &row.cells;
        if cells.len() > 0 {
            let texts = texts_of(cells);
            assert(string_views(texts@).len() == cell_texts(cells@).len());
            assert(texts@.len() == cells@.len());
            let pos = td_positions(cells);
            if pos.len() == 0 {
                let rt = row_text_of(cells);
                let r = rt.as_str();
                if str_contains(r, "条件") && str_contains(r, "房间") && str_contains(r, "描述") && texts.len() >= 3 {
                    slot = Some(texts[2].clone());
                }
            } else if cells.len() >= 5 && !texts[0].as_str().is_empty() && !texts[2].as_str().is_empty()
                && !texts[3].as_str().is_empty() {
                let (icon_alt, icon_url) = image_attrs(&cells[1]);
                let part = BuildingPart {
                    condition_label: texts[0].clone(),
                    condition_key: building_skill_condition_key(texts[0].as_str()),
                    slot: clone_opt(&slot),
                    room_type_key: building_skill_room_type_key(texts[3].as_str()),
                    room_type_label: texts[3].clone(),
                    skill_name: texts[2].clone(),
                    description: normalize_optional_text(texts[4].as_str()),
                    icon_alt,
                    icon_url,
                };
                let ghost before = parts@;
                parts.push(part);
                assert(building_part_views(parts@) =~= building_part_views(before).push(building_part_view(part)));
            }
        }
        j += 1;
    }
}

fn finalize_building(operator_id: &str, parts: &Vec<BuildingPart>) -> (res: Vec<PrtsOperatorBuildingSkillDefinition>)
    ensures
        building_views(res@) == building_final(operator_id@, building_part_views(parts@)),
{
    let mut res: Vec<PrtsOperatorBuildingSkillDefinition> = Vec::new();
    let mut k: usize = 0;
    while k < parts.len()
        invariant
            k <= parts@.len(),
            building_views(res@) == building_final(operator_id@, building_part_views(parts@)).take(k as int),
        decreases parts@.len() - k,
    {
        let p = &parts[k];
        let order = (k + 1) as u64;
        let condition_key = match &p.condition_key {
            Some(x) => x.clone(),
            None => {
                let n = u64_to_decimal(order);
                concat("row_", n.as_str())
            },
        };
        let row = PrtsOperatorBuildingSkillDefinition {
            operator_id: operator_id.to_string(),
            condition_key,
            condition_label: p.condition_label.clone(),
            skill_slot_label: clone_opt(&p.slot),
            room_type_key: p.room_type_key.clone(),
            room_type_label: p.room_type_label.clone(),
            skill_name: p.skill_name.clone(),
            description: clone_opt(&p.description),
            icon_alt: clone_opt(&p.icon_alt),
            icon_url: clone_opt(&p.icon_url),
            sort_order: order,
        };
        let ghost before = res@;
        res.push(row);
        assert(building_views(res@) =~= building_views(before).push(building_view(row)));
        assert(building_final(operator_id@, building_part_views(parts@)).take(k + 1) =~= building_final(
            operator_id@,
            building_part_views(parts@),
        ).take(k as int).push(building_final(operator_id@, building_part_views(parts@))[k as int]));
        k += 1;
    }
    assert(building_final(operator_id@, building_part_views(parts@)).take(k as int) =~= building_final(
        operator_id@,
        building_part_views(parts@),
    ));
    res
}

/// The base skills of an operator's section, read from its model.
pub fn building_skills_from_section(section: &HtmlSection, operator_id: &str, page_title: &str) -> (res: Result<Vec<PrtsOperatorBuildingSkillDefinition>, String>)
    ensures
        match building_skills_of(*section, operator_id@, page_title@) {
            Err(m) => res matches Err(e) && e@ == m,
            Ok(bs) => res matches Ok(v) && building_views(v@) == bs,
        },
{
    let mut parts: Vec<BuildingPart> = Vec::new();
    assert(building_part_views(parts@) =~= seq![]);
    let mut i: usize = 0;
    while i < section.tables.len()
        invariant
            i <= section.tables@.len(),
            building_tables_scan(section.tables@, i as int) == building_part_views(parts@),
        decreases section.tables@.len() - i,
    {
        building_table_parts(&section.tables[i], &mut parts);
        i += 1;
    }
    if parts.len() > 0 {
        Ok(finalize_building(operator_id, &parts))
    } else if str_contains(section.text.as_str(), "后勤技能") && str_contains(section.text.as_str(), "暂无") {
        let v: Vec<PrtsOperatorBuildingSkillDefinition> = Vec::new();
        assert(building_views(v@) =~= seq![]);
        Ok(v)
    } else {
        Err(message_with_name("operator ", page_title, " building skill section does not contain any rows"))
    }
}

// ---------------------------------------------------------------------------
// pages

/// The table selector of the workshop page's recipe tables.
pub open spec fn recipe_table_selector() -> Seq<char> {
    "table.wikitable.logo"@
}

/// The recipes, or the refusal, that the workshop page gives: its section
/// for `recipe_table_selector`, read as `recipes_of_section` says.
pub open spec fn page_recipes(
    html: Seq<char>,
    r: Result<Seq<(Seq<char>, i64, Seq<char>, Seq<(Seq<char>, i64)>, i64, i64, Seq<char>, Option<Seq<char>>)>, Seq<char>>,
) -> bool {
    exists|s: HtmlSection|
        #![trigger recipes_of_section(s)]
        section_view(s) == section_model(html, recipe_table_selector()) && recipes_of_section(s) == r
}

/// The recipes of the workshop page: its tables of class `wikitable logo`
/// read as `recipes_of_section` says. Fails on a selector only where one
/// does not parse.
pub fn extract_recipe_definitions(html: &str) -> (res: Result<Vec<PrtsRecipeDefinition>, PrtsClientError>)
    ensures
        res matches Ok(v) ==> page_recipes(html@, Ok(recipe_views(v@))),
        res matches Err(PrtsClientError::ParseRecipeIndexHtml { message }) ==> page_recipes(html@, Err(message@)),
        res matches Err(PrtsClientError::ParseHtmlSelector { message }) ==> selector_message(recipe_table_selector())
            == Some(message@) || fixed_selector_message(message@),
        selector_message(recipe_table_selector()) is None && fixed_selectors_parse() ==> (res matches Err(e)
            ==> !(e is ParseHtmlSelector)),
        res matches Err(e) ==> (e is ParseRecipeIndexHtml || e is ParseHtmlSelector),
{
    let section = match read_html_section(html, "table.wikitable.logo") {
        Ok(s) => s,
        Err(message) => {
            return Err(PrtsClientError::ParseHtmlSelector { message });
        },
    };
    match recipes_from_section(&section) {
        Ok(v) => {
            assert(recipes_of_section(section) == Ok::<_, Seq<char>>(recipe_views(v@)));
            Ok(v)
        },
        Err(message) => {
            assert(recipes_of_section(section) == Err::<
                Seq<(Seq<char>, i64, Seq<char>, Seq<(Seq<char>, i64)>, i64, i64, Seq<char>, Option<Seq<char>>)>,
                Seq<char>,
            >(message@));
            Err(PrtsClientError::ParseRecipeIndexHtml { message })
        },
    }
}

/// The sections of an operator's page that hold growth materials.
pub const PRTS_OPERATOR_ELITE_GROWTH_SECTION: &'static str = "精英化材料";
pub const PRTS_OPERATOR_SKILL_GROWTH_SECTION: &'static str = "技能升级材料";
pub const PRTS_OPERATOR_BUILDING_SKILL_SECTION: &'static str = "后勤技能";

/// The growth rows, or the refusal, that an operator's page gives for the
/// elite or the skill section: its section for the selector `table`, read
/// as `elite_growths_of` or `skill_growths_of` says.
pub open spec fn page_growths(
    operator: PrtsOperatorDefinition,
    elite: bool,
    html: Seq<char>,
    r: Result<Seq<(Seq<char>, Seq<char>, Seq<char>, Seq<char>, Seq<char>, Seq<char>, Option<Seq<char>>, Seq<(Seq<char>, Seq<char>)>)>, Seq<char>>,
) -> bool {
    exists|s: HtmlSection|
        #![trigger elite_growths_of(s, operator.operator_id@, operator.page_title@)]
        #![trigger skill_growths_of(s, operator.operator_id@, operator.page_title@)]
        section_view(s) == section_model(html, "table"@) && (if elite {
            elite_growths_of(s, operator.operator_id@, operator.page_title@)
        } else {
            skill_growths_of(s, operator.operator_id@, operator.page_title@)
        }) == r
}

/// The growth rows of a section of an operator's page: the elite section
/// as `elite_growths_of` reads it, the skill section as
/// `skill_growths_of` does; another section name is refused.
pub fn extract_operator_growth_definitions(operator: &PrtsOperatorDefinition, section_name: &str, html: &str) -> (res: Result<Vec<PrtsOperatorGrowthDefinition>, PrtsClientError>)
    ensures
        section_name@ != PRTS_OPERATOR_ELITE_GROWTH_SECTION@ && section_name@ != PRTS_OPERATOR_SKILL_GROWTH_SECTION@
            ==> (res matches Err(PrtsClientError::ParseOperatorGrowthHtml { message }) && message@
            == "unsupported operator growth section `"@ + section_name@ + "` for "@ + operator.page_title@),
        res matches Ok(v) ==> page_growths(
            *operator,
            section_name@ == PRTS_OPERATOR_ELITE_GROWTH_SECTION@,
            html@,
            Ok(growth_views(v@)),
        ),
        (section_name@ == PRTS_OPERATOR_ELITE_GROWTH_SECTION@ || section_name@ == PRTS_OPERATOR_SKILL_GROWTH_SECTION@)
            ==> (res matches Err(PrtsClientError::ParseOperatorGrowthHtml { message }) ==> page_growths(
            *operator,
            section_name@ == PRTS_OPERATOR_ELITE_GROWTH_SECTION@,
            html@,
            Err(message@),
        )),
        res matches Err(PrtsClientError::ParseHtmlSelector { message }) ==> selector_message("table"@) == Some(
            message@,
        ) || fixed_selector_message(message@),
        selector_message("table"@) is None && fixed_selectors_parse() ==> (res matches Err(e)
            ==> !(e is ParseHtmlSelector)),
        res matches Err(e) ==> (e is ParseOperatorGrowthHtml || e is ParseHtmlSelector),
{
    let elite = str_eq(section_name, PRTS_OPERATOR_ELITE_GROWTH_SECTION);
    let skill = str_eq(section_name, PRTS_OPERATOR_SKILL_GROWTH_SECTION);
    if !elite && !skill {
        let mut message = message_with_name("unsupported operator growth section `", section_name, "` for ");
        message.append(operator.page_title.as_str());
        return Err(PrtsClientError::ParseOperatorGrowthHtml { message });
    }
    let section = match read_html_section(html, "table") {
        Ok(s) => s,
        Err(message) => {
            return Err(PrtsClientError::ParseHtmlSelector { message });
        },
    };
    let r = if elite {
        elite_growths_from_section(&section, operator.operator_id.as_str(), operator.page_title.as_str())
    } else {
        skill_growths_from_section(&section, operator.operator_id.as_str(), operator.page_title.as_str())
    };
    match r {
        Ok(v) => {
            if elite {
                assert(elite_growths_of(section, operator.operator_id@, operator.page_title@) == Ok::<_, Seq<char>>(
                    growth_views(v@),
                ));
            } else {
                assert(skill_growths_of(section, operator.operator_id@, operator.page_title@) == Ok::<_, Seq<char>>(
                    growth_views(v@),
                ));
            }
            Ok(v)
        },
        Err(message) => {
            if elite {
                assert(elite_growths_of(section, operator.operator_id@, operator.page_title@) is Err);
            } else {
                assert(skill_growths_of(section, operator.operator_id@, operator.page_title@) is Err);
            }
            Err(PrtsClientError::ParseOperatorGrowthHtml { message })
        },
    }
}

/// The base skills, or the refusal, that an operator's page gives: its
/// section for the selector `table`, read as `building_skills_of` says.
pub open spec fn page_building_skills(
    operator: PrtsOperatorDefinition,
    html: Seq<char>,
    r: Result<Seq<((Seq<char>, Seq<char>, Seq<char>, Option<Seq<char>>), (Seq<char>, Seq<char>, Seq<char>, Option<Seq<char>>), (Option<Seq<char>>, Option<Seq<char>>, int))>, Seq<char>>,
) -> bool {
    exists|s: HtmlSection|
        #![trigger building_skills_of(s, operator.operator_id@, operator.page_title@)]
        section_view(s) == section_model(html, "table"@) && building_skills_of(
            s,
            operator.operator_id@,
            operator.page_title@,
        ) == r
}

/// The base skills of an operator's base-skill section, as
/// `building_skills_of` reads its tables.
pub fn extract_operator_building_skill_definitions(operator: &PrtsOperatorDefinition, html: &str) -> (res: Result<Vec<PrtsOperatorBuildingSkillDefinition>, PrtsClientError>)
    ensures
        res matches Ok(v) ==> page_building_skills(*operator, html@, Ok(building_views(v@))),
        res matches Err(PrtsClientError::ParseOperatorBuildingSkillHtml { message }) ==> page_building_skills(
            *operator,
            html@,
            Err(message@),
        ),
        res matches Err(PrtsClientError::ParseHtmlSelector { message }) ==> selector_message("table"@) == Some(
            message@,
        ) || fixed_selector_message(message@),
        selector_message("table"@) is None && fixed_selectors_parse() ==> (res matches Err(e)
            ==> !(e is ParseHtmlSelector)),
        res matches Err(e) ==> (e is ParseOperatorBuildingSkillHtml || e is ParseHtmlSelector),
{
    let section = match read_html_section(html, "table") {
        Ok(s) => s,
        Err(message) => {
            return Err(PrtsClientError::ParseHtmlSelector { message });
        },
    };
    match building_skills_from_section(&section, operator.operator_id.as_str(), operator.page_title.as_str()) {
        Ok(v) => {
            assert(building_skills_of(section, operator.operator_id@, operator.page_title@) == Ok::<_, Seq<char>>(
                building_views(v@),
            ));
            Ok(v)
        },
        Err(message) => {
            assert(building_skills_of(section, operator.operator_id@, operator.page_title@) is Err);
            Err(PrtsClientError::ParseOperatorBuildingSkillHtml { message })
        },
    }
}

} // verus!
