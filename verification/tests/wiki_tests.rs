use akbox::html::read_html_section;
use akbox::json::JsonValue;
use akbox::prts::PrtsClientError;
use akbox::prts::PrtsOperatorDefinition;
use akbox::prts::box_collectible_positions;
use akbox::prts::latest_page_revision;
use akbox::wiki::extract_operator_building_skill_definitions;
use akbox::wiki::extract_operator_growth_definitions;
use akbox::wiki::extract_recipe_definitions;

fn operator(id: &str, name: &str) -> PrtsOperatorDefinition {
    PrtsOperatorDefinition {
        operator_id: id.to_string(),
        name_zh: name.to_string(),
        rarity: 5,
        profession: "狙击".to_string(),
        branch: None,
        categories: Vec::new(),
        is_box_collectible: true,
        page_title: name.to_string(),
        raw_json: JsonValue::Null,
    }
}

const RECIPE_HTML: &str = "<div class=\"mw-content-ltr mw-parser-output\" lang=\"zh-Hans-CN\" dir=\"ltr\"><table class=\"wikitable logo\"><tbody><tr><th rowspan=\"2\">加工站等级</th><th rowspan=\"2\">所需原料</th><th rowspan=\"2\">产品</th><th colspan=\"2\">加工消耗</th><th rowspan=\"2\">副产物概率</th><th rowspan=\"2\">额外解锁条件</th></tr><tr><td>加工费用</td><td>心情消耗</td></tr><tr><th colspan=\"7\">精英材料</th></tr><tr><td>3</td><td><div style=\"display:inline-block;position:relative\"><span typeof=\"mw:File\"><a href=\"/w/%E5%BC%82%E9%93%81\" title=\"异铁\"><img src=\"https://media.prts.wiki/item_a.png\" /></a></span><span>3</span></div><div style=\"display:inline-block;position:relative\"><span typeof=\"mw:File\"><a href=\"/w/%E7%A0%94%E7%A3%A8%E7%9F%B3\" title=\"研磨石\"><img src=\"https://media.prts.wiki/item_b.png\" /></a></span><span>1</span></div></td><td><div style=\"display:inline-block;position:relative\"><span typeof=\"mw:File\"><a href=\"/w/%E5%BC%82%E9%93%81%E7%BB%84\" title=\"异铁组\"><img src=\"https://media.prts.wiki/item_c.png\" /></a></span><span>1</span></div></td><td>300</td><td>2</td><td>10%</td><td>－</td></tr></tbody></table></div>";

const ELITE_HTML: &str = "<div class=\"mw-content-ltr mw-parser-output\"><table><tbody><tr><th>精英阶段0→1</th><td><div><a title=\"龙门币\"></a><span>3w</span></div><div><a title=\"狙击芯片\"></a><span>5</span></div></td></tr></tbody></table></div>";

const SKILL_HTML: &str = "<div class=\"mw-content-ltr mw-parser-output\"><table><tbody><tr><th colspan=\"2\">技能升级</th></tr><tr><th>1→2</th><td><div><a title=\"技巧概要·卷1\"></a><span>5</span></div></td></tr><tr><th colspan=\"2\">达到精英阶段1后解锁</th></tr><tr><th>4→5</th><td><div><a title=\"技巧概要·卷2\"></a><span>8</span></div></td></tr><tr><th colspan=\"2\">专精训练(达到精英阶段2后解锁)</th></tr><tr><th colspan=\"2\">第1技能</th></tr><tr><th>等级1</th><td><div><a title=\"技巧概要·卷3\"></a><span>6</span></div></td></tr></tbody></table></div>";

const BUILDING_HTML: &str = "<div class=\"mw-content-ltr mw-parser-output\"><table class=\"wikitable logo\"><tbody><tr><th>条件</th><th>图标</th><th>技能1</th><th>房间</th><th>描述</th></tr><tr><td>精英0</td><td><img alt=\"合作协议\" src=\"//torappu.prts.wiki/assets/build_skill_icon/bskill_ctrl_t_spd.png\" /></td><td>合作协议</td><td>控制中枢</td><td>进驻控制中枢时，所有贸易站订单效率+7%</td></tr></tbody></table><table class=\"wikitable logo\"><tbody><tr><th>条件</th><th>图标</th><th>技能2</th><th>房间</th><th>描述</th></tr><tr><td>精英2</td><td><img alt=\"小提琴独奏\" src=\"//torappu.prts.wiki/assets/build_skill_icon/bskill_dorm_all2.png\" /></td><td>小提琴独奏</td><td>宿舍</td><td>进驻宿舍时，该宿舍内所有干员的心情每小时恢复+0.15</td></tr></tbody></table></div>";

#[test]
fn recipe_table_rows_become_recipes() {
    let recipes = match extract_recipe_definitions(RECIPE_HTML) {
        Ok(recipes) => recipes,
        Err(_) => panic!("the recipe page parses"),
    };
    assert_eq!(recipes.len(), 1);
    assert_eq!(recipes[0].recipe_kind, "精英材料");
    assert_eq!(recipes[0].workshop_level, 3);
    assert_eq!(recipes[0].output_name_zh, "异铁组");
    assert_eq!(recipes[0].ingredients.len(), 2);
    assert_eq!(recipes[0].ingredients[0].item_name_zh, "异铁");
    assert_eq!(recipes[0].ingredients[0].count, 3);
    assert_eq!(recipes[0].ingredients[1].item_name_zh, "研磨石");
    assert_eq!(recipes[0].ingredients[1].count, 1);
    assert_eq!(recipes[0].lmd_cost, 300);
    assert_eq!(recipes[0].mood_cost, 2);
    assert_eq!(recipes[0].byproduct_rate_text, "10%");
    assert_eq!(recipes[0].unlock_condition, None);
}

#[test]
fn page_without_recipe_rows_is_refused() {
    match extract_recipe_definitions("<table class=\"wikitable logo\"><tr><th>别的表</th></tr></table>") {
        Err(PrtsClientError::ParseRecipeIndexHtml { message }) => {
            assert_eq!(message, "recipe index HTML does not contain any recipe rows");
        }
        _ => panic!("a page without recipes is refused"),
    }
}

#[test]
fn elite_section_rows_and_promotion_keys() {
    let op = operator("char_103_angel", "能天使");
    let growths = match extract_operator_growth_definitions(&op, "精英化材料", ELITE_HTML) {
        Ok(growths) => growths,
        Err(_) => panic!("the elite section parses"),
    };
    assert_eq!(growths.len(), 1);
    assert_eq!(growths[0].operator_id, "char_103_angel");
    assert_eq!(growths[0].growth_kind, "elite_promotion");
    assert_eq!(growths[0].stage_key, "elite_0_1");
    assert_eq!(growths[0].stage_label, "精英阶段0→1");
    assert_eq!(growths[0].material_slot_label, "精英化");
    assert_eq!(growths[0].materials.len(), 2);
    assert_eq!(growths[0].materials[0].title, "龙门币");
    assert_eq!(growths[0].materials[0].text, "3w");
}

#[test]
fn operators_that_cannot_be_promoted_have_no_elite_rows() {
    let op = operator("char_009_12fce", "12F");
    let html = "<div class=\"mw-content-ltr mw-parser-output\"><p>该干员无法精英化</p></div>";
    match extract_operator_growth_definitions(&op, "精英化材料", html) {
        Ok(growths) => assert!(growths.is_empty()),
        Err(_) => panic!("no promotion is no error"),
    }
    match extract_operator_growth_definitions(&op, "精英化材料", "<p>别的</p>") {
        Err(PrtsClientError::ParseOperatorGrowthHtml { message }) => {
            assert_eq!(message, "operator 12F elite growth section does not contain any rows");
        }
        _ => panic!("an empty section is refused"),
    }
}

#[test]
fn skill_section_has_upgrades_unlocks_and_mastery_slots() {
    let op = operator("char_103_angel", "能天使");
    let growths = match extract_operator_growth_definitions(&op, "技能升级材料", SKILL_HTML) {
        Ok(growths) => growths,
        Err(_) => panic!("the skill section parses"),
    };
    assert_eq!(growths.len(), 3);
    assert_eq!(growths[0].stage_label, "1→2");
    assert_eq!(growths[0].stage_key, "skill_1_2");
    assert_eq!(growths[0].material_slot_label, "通用");
    assert_eq!(growths[0].unlock_condition, None);
    assert_eq!(growths[1].stage_key, "skill_4_5");
    assert_eq!(growths[1].unlock_condition.as_deref(), Some("达到精英阶段1后解锁"));
    assert_eq!(growths[2].growth_kind, "skill_mastery");
    assert_eq!(growths[2].stage_label, "等级1");
    assert_eq!(growths[2].stage_key, "mastery_1");
    assert_eq!(growths[2].material_slot_key, "skill_1");
    assert_eq!(growths[2].material_slot_label, "第1技能");
    assert_eq!(growths[2].unlock_condition.as_deref(), Some("专精训练(达到精英阶段2后解锁)"));
}

#[test]
fn operators_without_skills_and_unknown_sections() {
    let op = operator("char_009_12fce", "12F");
    let html = "<div class=\"mw-content-ltr mw-parser-output\"><p>该干员没有技能</p></div>";
    match extract_operator_growth_definitions(&op, "技能升级材料", html) {
        Ok(growths) => assert!(growths.is_empty()),
        Err(_) => panic!("no skill is no error"),
    }
    match extract_operator_growth_definitions(&op, "技能升级材料", "<p>x</p>") {
        Err(PrtsClientError::ParseOperatorGrowthHtml { message }) => {
            assert_eq!(message, "operator 12F skill growth section does not contain a table");
        }
        _ => panic!("a section without a table is refused"),
    }
    match extract_operator_growth_definitions(&op, "后勤技能", html) {
        Err(PrtsClientError::ParseOperatorGrowthHtml { message }) => {
            assert_eq!(message, "unsupported operator growth section `后勤技能` for 12F");
        }
        _ => panic!("another section is refused"),
    }
}

#[test]
fn base_skills_are_numbered_across_tables() {
    let op = operator("char_002_amiya", "阿米娅");
    let skills = match extract_operator_building_skill_definitions(&op, BUILDING_HTML) {
        Ok(skills) => skills,
        Err(_) => panic!("the base skill section parses"),
    };
    assert_eq!(skills.len(), 2);
    assert_eq!(skills[0].room_type_key, "control_center");
    assert_eq!(skills[0].room_type_label, "控制中枢");
    assert_eq!(skills[0].condition_key, "elite_0");
    assert_eq!(skills[0].skill_name, "合作协议");
    assert_eq!(skills[0].skill_slot_label.as_deref(), Some("技能1"));
    assert_eq!(skills[0].icon_alt.as_deref(), Some("合作协议"));
    assert_eq!(skills[0].sort_order, 1);
    assert_eq!(skills[1].room_type_key, "dormitory");
    assert_eq!(skills[1].skill_slot_label.as_deref(), Some("技能2"));
    assert_eq!(skills[1].sort_order, 2);
    assert_eq!(skills[1].description.as_deref(), Some("进驻宿舍时，该宿舍内所有干员的心情每小时恢复+0.15"));
}

#[test]
fn base_skill_section_without_rows() {
    let op = operator("char_x", "X");
    match extract_operator_building_skill_definitions(&op, "<p>后勤技能 暂无</p>") {
        Ok(skills) => assert!(skills.is_empty()),
        Err(_) => panic!("no base skill yet is no error"),
    }
    match extract_operator_building_skill_definitions(&op, "<p>空</p>") {
        Err(PrtsClientError::ParseOperatorBuildingSkillHtml { message }) => {
            assert_eq!(message, "operator X building skill section does not contain any rows");
        }
        _ => panic!("an empty section is refused"),
    }
}

#[test]
fn page_revisions_take_the_greatest_number() {
    assert_eq!(latest_page_revision("335492", &vec!["400001".to_string(), "400002".to_string()]), "400002");
    assert_eq!(latest_page_revision("abc", &Vec::new()), "abc");
    assert_eq!(latest_page_revision("0", &vec!["x".to_string()]), "0");
}

#[test]
fn reading_a_section_reports_a_selector_that_does_not_parse() {
    let error = match read_html_section("<table></table>", "table[[") {
        Err(error) => error,
        Ok(_) => panic!("a broken selector must be refused"),
    };
    assert!(error.starts_with("table[[: "));
    assert!(error.len() > "table[[: ".len());
}

#[test]
fn reading_a_section_collects_tables_rows_and_cells() {
    let html = "<p>intro</p><table class=\"wikitable\"><tr><th>名称</th><td colspan=\"2\"><div><a title=\"固源岩\">固源岩</a> x2</div></td></tr></table>";
    let section = match read_html_section(html, "table.wikitable") {
        Ok(section) => section,
        Err(error) => panic!("{error}"),
    };
    assert_eq!(section.tables.len(), 1);
    let row = &section.tables[0].rows[0];
    assert_eq!(row.cells.len(), 2);
    assert_eq!(row.cells[0].name, "th");
    assert_eq!(row.cells[1].colspan.as_deref(), Some("2"));
    assert_eq!(row.cells[1].items.len(), 1);
    assert_eq!(row.cells[1].items[0].title, "固源岩");
}

#[test]
fn only_box_collectible_operators_are_kept() {
    let mut reserve = operator("char_513_apionr", "预备干员-重装");
    reserve.is_box_collectible = false;
    let operators = vec![operator("char_002_amiya", "阿米娅"), reserve, operator("char_009_12fce", "12F")];
    assert_eq!(box_collectible_positions(&operators), vec![0, 2]);
    assert_eq!(box_collectible_positions(&Vec::new()), Vec::<usize>::new());
}
