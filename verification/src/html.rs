//! The parts of an HTML page that the wiki extractors read, taken from
//! `scraper`'s selections as plain values.
use vstd::prelude::*;
use crate::prts::normalize_text;
use crate::text::{join, join_strings, opt_view, str_eq, string_views, words};

verus! {

/// An element that a selector matched, as plain values: its tag name, its
/// outer HTML, its text nodes in document order and its attributes in order.
pub struct HtmlElement {
    pub name: String,
    pub outer_html: String,
    pub text_nodes: Vec<String>,
    pub attributes: Vec<(String, String)>,
}

/// An element's name, outer HTML, text nodes and attributes.
pub type ElementView = (Seq<char>, Seq<char>, Seq<Seq<char>>, Seq<(Seq<char>, Seq<char>)>);

pub open spec fn attribute_views(a: Seq<(String, String)>) -> Seq<(Seq<char>, Seq<char>)> {
    a.map_values(|p: (String, String)| (p.0@, p.1@))
}

pub open spec fn element_view(e: HtmlElement) -> ElementView {
    (e.name@, e.outer_html@, string_views(e.text_nodes@), attribute_views(e.attributes@))
}

pub open spec fn element_views(v: Seq<HtmlElement>) -> Seq<ElementView> {
    v.map_values(|e: HtmlElement| element_view(e))
}

/// The text of the error that `scraper::Selector::parse` gives for a
/// selector group, where it gives one.
pub uninterp spec fn selector_error(selector: Seq<char>) -> Option<Seq<char>>;

/// The elements of a page, parsed by `scraper`, that a selector group
/// matches, in document order.
pub uninterp spec fn html_elements(html: Seq<char>, selector: Seq<char>) -> Seq<ElementView>;

/// Parses a page (`scraper::Html::parse_document`) and a selector group
/// (`scraper::Selector::parse`), and gives each element that the selector
/// matches (`Html::select`) as plain values: `Element::name`,
/// `ElementRef::html`, `ElementRef::text` and `Element::attrs`. Trusted: a
/// selector that does not parse gives its error's text, named
/// `selector_error`; otherwise the elements are named `html_elements` of
/// the page and the selector.
#[verifier::external_body]
fn select_elements(html: &str, selector: &str) -> (res: Result<Vec<HtmlElement>, String>)
    ensures
        res is Err <==> selector_error(selector@) is Some,
        res matches Err(e) ==> selector_error(selector@) == Some(e@),
        res matches Ok(v) ==> element_views(v@) == html_elements(html@, selector@),
{
    let selector = scraper::Selector::parse(selector).map_err(|error| error.to_string())?;
    Ok(scraper::Html::parse_document(html).select(&selector).map(|e| HtmlElement {
        name: e.value().name().to_string(),
        outer_html: e.html(),
        text_nodes: e.text().map(|t| t.to_string()).collect(),
        attributes: e.value().attrs().map(|(k, v)| (k.to_string(), v.to_string())).collect(),
    }).collect())
}

/// A `div` of a cell that holds a titled link: the link's title and the
/// div's normalized text.
pub struct HtmlItemAnchor {
    pub title: String,
    pub text: String,
}

/// The first image of a cell: its `alt` and `src`.
pub struct HtmlImage {
    pub alt: Option<String>,
    pub src: Option<String>,
}

/// A `th` or `td` cell: its tag name, normalized text, `colspan`, titled
/// item links and first image.
pub struct HtmlCell {
    pub name: String,
    pub text: String,
    pub colspan: Option<String>,
    pub items: Vec<HtmlItemAnchor>,
    pub image: Option<HtmlImage>,
}

/// A `tr` row: its `th` and `td` cells in document order.
pub struct HtmlRow {
    pub cells: Vec<HtmlCell>,
}

/// A table: its normalized text and its rows.
pub struct HtmlTable {
    pub text: String,
    pub rows: Vec<HtmlRow>,
}

/// A page (or a section of one): its normalized text and the tables that a
/// selector picks.
pub struct HtmlSection {
    pub text: String,
    pub tables: Vec<HtmlTable>,
}

/// The message of a selector that does not parse: the selector, then the
/// parser's error.
pub open spec fn selector_message(selector: Seq<char>) -> Option<Seq<char>> {
    match selector_error(selector) {
        Some(e) => Some(selector + ": "@ + e),
        None => None,
    }
}

fn message_of(selector: &str, error: String) -> (res: String)
    ensures
        res@ == selector@ + ": "@ + error@,
{
    let mut m = selector.to_string();
    m.append(": ");
    m.append(error.as_str());
    m
}

/// Checks that a selector parses, or gives the message `selector: error`.
fn check_selector(selector: &str) -> (res: Result<(), String>)
    ensures
        res is Err <==> selector_message(selector@) is Some,
        res matches Err(m) ==> selector_message(selector@) == Some(m@),
{
    match select_elements("", selector) {
        Ok(_) => Ok(()),
        Err(e) => Err(message_of(selector, e)),
    }
}

/// The elements that a selector picks from a page, or the message
/// `selector: error` where it does not parse.
fn select(html: &str, selector: &str) -> (res: Result<Vec<HtmlElement>, String>)
    ensures
        res is Err <==> selector_message(selector@) is Some,
        res matches Err(m) ==> selector_message(selector@) == Some(m@),
        res matches Ok(v) ==> element_views(v@) == html_elements(html@, selector@),
{
    match select_elements(html, selector) {
        Ok(v) => Ok(v),
        Err(e) => Err(message_of(selector, e)),
    }
}

/// The fixed selectors that the cells of a section are read with all parse.
pub open spec fn fixed_selectors_parse() -> bool {
    &&& selector_message("tr"@) is None
    &&& selector_message("th, td"@) is None
    &&& selector_message("div"@) is None
    &&& selector_message("a[title]"@) is None
    &&& selector_message("img"@) is None
    &&& selector_message("html"@) is None
}

/// The message of one of the fixed selectors that does not parse.
pub open spec fn fixed_selector_message(m: Seq<char>) -> bool {
    ||| selector_message("tr"@) == Some(m)
    ||| selector_message("th, td"@) == Some(m)
    ||| selector_message("div"@) == Some(m)
    ||| selector_message("a[title]"@) == Some(m)
    ||| selector_message("img"@) == Some(m)
    ||| selector_message("html"@) == Some(m)
}

/// A selector that parses gives its elements.
fn select_parsed(html: &str, selector: &str) -> (res: Vec<HtmlElement>)
    requires
        selector_message(selector@) is None,
    ensures
        element_views(res@) == html_elements(html@, selector@),
{
    match select(html, selector) {
        Ok(v) => v,
        Err(_) => vstd::pervasive::unreached(),
    }
}

// ---------------------------------------------------------------------------
// what a section is, read from the page

/// Text with its whitespace normalized: the words of some text, joined by
/// single spaces.
pub open spec fn normalized_text(t: Seq<char>) -> bool {
    exists|raw: Seq<char>| t == join(#[trigger] words(raw), seq![' '])
}

/// An element's text: its text nodes joined by single spaces, normalized.
pub open spec fn element_text_of(e: ElementView) -> Seq<char> {
    join(words(join(e.2, " "@)), seq![' '])
}

/// The value of the first attribute with this name.
pub open spec fn attr_of(attrs: Seq<(Seq<char>, Seq<char>)>, name: Seq<char>) -> Option<Seq<char>>
    decreases attrs.len(),
{
    if attrs.len() == 0 {
        None
    } else if attrs[0].0 == name {
        Some(attrs[0].1)
    } else {
        attr_of(attrs.drop_first(), name)
    }
}

/// A row's outer HTML, put back in a table so that it parses as a row.
pub open spec fn in_table(outer: Seq<char>) -> Seq<char> {
    "<table>"@ + outer + "</table>"@
}

/// A cell's outer HTML, put back in a row of a table so that it parses as
/// a cell.
pub open spec fn in_row(outer: Seq<char>) -> Seq<char> {
    "<table><tr>"@ + outer + "</tr></table>"@
}

/// The item of a div: the title of its first titled link, with the div's
/// text, where that link has a title.
pub open spec fn div_item(d: ElementView) -> Option<(Seq<char>, Seq<char>)> {
    let links = html_elements(d.1, "a[title]"@);
    if links.len() > 0 {
        match attr_of(links[0].3, "title"@) {
            Some(t) => Some((t, element_text_of(d))),
            None => None,
        }
    } else {
        None
    }
}

pub open spec fn div_items(divs: Seq<ElementView>) -> Seq<(Seq<char>, Seq<char>)>
    decreases divs.len(),
{
    if divs.len() == 0 {
        seq![]
    } else {
        let p = div_items(divs.drop_last());
        match div_item(divs.last()) {
            Some(i) => p.push(i),
            None => p,
        }
    }
}

/// A cell's name, text, `colspan`, items and first image's `alt` and `src`.
pub type CellView = (
    Seq<char>,
    Seq<char>,
    Option<Seq<char>>,
    Seq<(Seq<char>, Seq<char>)>,
    Option<(Option<Seq<char>>, Option<Seq<char>>)>,
);

pub open spec fn image_model(images: Seq<ElementView>) -> Option<(Option<Seq<char>>, Option<Seq<char>>)> {
    if images.len() > 0 {
        Some((attr_of(images[0].3, "alt"@), attr_of(images[0].3, "src"@)))
    } else {
        None
    }
}

/// The cell that a matched cell element reads as.
pub open spec fn cell_model(c: ElementView) -> CellView {
    (
        c.0,
        element_text_of(c),
        attr_of(c.3, "colspan"@),
        div_items(html_elements(in_row(c.1), "div"@)),
        image_model(html_elements(in_row(c.1), "img"@)),
    )
}

pub open spec fn item_views(items: Seq<HtmlItemAnchor>) -> Seq<(Seq<char>, Seq<char>)> {
    items.map_values(|a: HtmlItemAnchor| (a.title@, a.text@))
}

pub open spec fn cell_view(c: HtmlCell) -> CellView {
    (
        c.name@,
        c.text@,
        opt_view(c.colspan),
        item_views(c.items@),
        match c.image {
            Some(i) => Some((opt_view(i.alt), opt_view(i.src))),
            None => None,
        },
    )
}

pub open spec fn cells_model(cells: Seq<ElementView>) -> Seq<CellView> {
    cells.map_values(|c: ElementView| cell_model(c))
}

/// The cells of a matched row element.
pub open spec fn row_model(r: ElementView) -> Seq<CellView> {
    cells_model(html_elements(in_table(r.1), "th, td"@))
}

pub open spec fn row_view(r: HtmlRow) -> Seq<CellView> {
    r.cells@.map_values(|c: HtmlCell| cell_view(c))
}

pub open spec fn rows_model(rows: Seq<ElementView>) -> Seq<Seq<CellView>> {
    rows.map_values(|r: ElementView| row_model(r))
}

/// The text and rows of a matched table element.
pub open spec fn table_model(t: ElementView) -> (Seq<char>, Seq<Seq<CellView>>) {
    (element_text_of(t), rows_model(html_elements(t.1, "tr"@)))
}

pub open spec fn table_view(t: HtmlTable) -> (Seq<char>, Seq<Seq<CellView>>) {
    (t.text@, t.rows@.map_values(|r: HtmlRow| row_view(r)))
}

pub open spec fn tables_model(tables: Seq<ElementView>) -> Seq<(Seq<char>, Seq<Seq<CellView>>)> {
    tables.map_values(|t: ElementView| table_model(t))
}

/// The page's text: that of its root element.
pub open spec fn page_text(html: Seq<char>) -> Seq<char> {
    let roots = html_elements(html, "html"@);
    if roots.len() > 0 {
        element_text_of(roots[0])
    } else {
        join(words(Seq::<char>::empty()), seq![' '])
    }
}

/// The section that a page gives for a table selector: the page's text and
/// each matched table's text and rows.
pub open spec fn section_model(html: Seq<char>, table_selector: Seq<char>) -> (
    Seq<char>,
    Seq<(Seq<char>, Seq<Seq<CellView>>)>,
) {
    (page_text(html), tables_model(html_elements(html, table_selector)))
}

pub open spec fn section_view(s: HtmlSection) -> (Seq<char>, Seq<(Seq<char>, Seq<Seq<CellView>>)>) {
    (s.text@, s.tables@.map_values(|t: HtmlTable| table_view(t)))
}

/// The texts that a cell carries are normalized.
pub open spec fn cell_normalized(c: HtmlCell) -> bool {
    &&& normalized_text(c.text@)
    &&& forall|i: int| 0 <= i < c.items@.len() ==> normalized_text(#[trigger] c.items@[i].text@)
}

pub open spec fn row_normalized(r: HtmlRow) -> bool {
    forall|i: int| 0 <= i < r.cells@.len() ==> cell_normalized(#[trigger] r.cells@[i])
}

pub open spec fn table_normalized(t: HtmlTable) -> bool {
    &&& normalized_text(t.text@)
    &&& forall|i: int| 0 <= i < t.rows@.len() ==> row_normalized(#[trigger] t.rows@[i])
}

/// Every text that a section read from a page carries is normalized.
pub open spec fn section_normalized(sec: HtmlSection) -> bool {
    &&& normalized_text(sec.text@)
    &&& forall|i: int| 0 <= i < sec.tables@.len() ==> table_normalized(#[trigger] sec.tables@[i])
}

// ---------------------------------------------------------------------------
// reading

/// An element's text nodes joined by single spaces, normalized.
fn text_of(e: &HtmlElement) -> (res: String)
    ensures
        res@ == element_text_of(element_view(*e)),
        normalized_text(res@),
{
    let raw = join_strings(e.text_nodes.as_slice(), " ");
    let text = normalize_text(raw.as_str());
    assert(normalized_text(text@)) by {
        assert(text@ == join(words(raw@), seq![' ']));
    }
    text
}

/// The value of the first attribute with this name.
fn attribute(attrs: &Vec<(String, String)>, name: &str) -> (res: Option<String>)
    ensures
        opt_view(res) == attr_of(attribute_views(attrs@), name@),
{
    let ghost all = attribute_views(attrs@);
    let mut i: usize = 0;
    assert(all.skip(0) =~= all);
    while i < attrs.len()
        invariant
            i <= attrs@.len(),
            all == attribute_views(attrs@),
            attr_of(all, name@) == attr_of(all.skip(i as int), name@),
        decreases attrs@.len() - i,
    {
        assert(all.skip(i as int)[0] == all[i as int]);
        if str_eq(attrs[i].0.as_str(), name) {
            let v = attrs[i].1.clone();
            assert(v@ == attrs@[i as int].1@);
            return Some(v);
        }
        assert(all.skip(i as int).drop_first() =~= all.skip(i + 1));
        i += 1;
    }
    assert(all.skip(i as int) =~= Seq::<(Seq<char>, Seq<char>)>::empty());
    None
}

fn wrapped(before: &str, outer: &String, after: &str) -> (res: String)
    ensures
        res@ == before@ + outer@ + after@,
{
    let mut s = before.to_string();
    s.append(outer.as_str());
    s.append(after);
    s
}

/// Reads a matched cell element: its name, text, `colspan`, the titled
/// items of its divs and its first image. Its text, and the text of each
/// titled item, are normalized.
fn read_cell(cell: &HtmlElement) -> (res: HtmlCell)
    requires
        fixed_selectors_parse(),
    ensures
        cell_view(res) == cell_model(element_view(*cell)),
        cell_normalized(res),
{
    let context = wrapped("<table><tr>", &cell.outer_html, "</tr></table>");
    let divs = select_parsed(context.as_str(), "div");
    let ghost div_views = element_views(divs@);
    let mut items: Vec<HtmlItemAnchor> = Vec::new();
    let mut k: usize = 0;
    while k < divs.len()
        invariant
            k <= divs@.len(),
            fixed_selectors_parse(),
            div_views == element_views(divs@),
            item_views(items@) == div_items(div_views.take(k as int)),
            forall|i: int| 0 <= i < items@.len() ==> normalized_text(#[trigger] items@[i].text@),
        decreases divs@.len() - k,
    {
        assert(div_views.take(k + 1).drop_last() =~= div_views.take(k as int));
        assert(div_views.take(k + 1).last() == element_view(divs@[k as int]));
        let links = select_parsed(divs[k].outer_html.as_str(), "a[title]");
        if links.len() > 0 {
            match attribute(&links[0].attributes, "title") {
                Some(title) => {
                    let text = text_of(&divs[k]);
                    let ghost before = items@;
                    items.push(HtmlItemAnchor { title, text });
                    assert(item_views(items@) =~= item_views(before).push((items@.last().title@, items@.last().text@)));
                },
                None => {},
            }
        }
        k += 1;
    }
    assert(div_views.take(divs@.len() as int) =~= div_views);
    let images = select_parsed(context.as_str(), "img");
    let image = if images.len() > 0 {
        Some(
            HtmlImage {
                alt: attribute(&images[0].attributes, "alt"),
                src: attribute(&images[0].attributes, "src"),
            },
        )
    } else {
        None
    };
    let res = HtmlCell {
        name: cell.name.clone(),
        text: text_of(cell),
        colspan: attribute(&cell.attributes, "colspan"),
        items,
        image,
    };
    assert(cell_view(res).4 == cell_model(element_view(*cell)).4);
    res
}

/// Reads a matched row element: its `th` and `td` cells.
fn read_row(row: &HtmlElement) -> (res: HtmlRow)
    requires
        fixed_selectors_parse(),
    ensures
        row_view(res) == row_model(element_view(*row)),
        row_normalized(res),
{
    let context = wrapped("<table>", &row.outer_html, "</table>");
    let elements = select_parsed(context.as_str(), "th, td");
    let ghost views = element_views(elements@);
    let mut cells: Vec<HtmlCell> = Vec::new();
    let mut c: usize = 0;
    while c < elements.len()
        invariant
            c <= elements@.len(),
            fixed_selectors_parse(),
            views == element_views(elements@),
            cells@.map_values(|x: HtmlCell| cell_view(x)) == cells_model(views.take(c as int)),
            forall|x: int| 0 <= x < cells@.len() ==> cell_normalized(#[trigger] cells@[x]),
        decreases elements@.len() - c,
    {
        let cell = read_cell(&elements[c]);
        let ghost before = cells@;
        cells.push(cell);
        assert(views.take(c + 1) =~= views.take(c as int).push(views[c as int]));
        assert(cells@ =~= before.push(cell));
        assert(cells@.map_values(|x: HtmlCell| cell_view(x)) =~= before.map_values(|x: HtmlCell| cell_view(x)).push(cell_view(cell)));
        assert(cells_model(views.take(c + 1)) =~= cells_model(views.take(c as int)).push(cell_model(views[c as int])));
        c += 1;
    }
    assert(views.take(elements@.len() as int) =~= views);
    HtmlRow { cells }
}

/// Reads a matched table element: its text and its rows.
fn read_table(table: &HtmlElement) -> (res: HtmlTable)
    requires
        fixed_selectors_parse(),
    ensures
        table_view(res) == table_model(element_view(*table)),
        table_normalized(res),
{
    let elements = select_parsed(table.outer_html.as_str(), "tr");
    let ghost views = element_views(elements@);
    let mut rows: Vec<HtmlRow> = Vec::new();
    let mut j: usize = 0;
    while j < elements.len()
        invariant
            j <= elements@.len(),
            fixed_selectors_parse(),
            views == element_views(elements@),
            rows@.map_values(|r: HtmlRow| row_view(r)) == rows_model(views.take(j as int)),
            forall|r: int| 0 <= r < rows@.len() ==> row_normalized(#[trigger] rows@[r]),
        decreases elements@.len() - j,
    {
        let row = read_row(&elements[j]);
        let ghost before = rows@;
        rows.push(row);
        assert(rows@ =~= before.push(row));
        assert(rows@.map_values(|r: HtmlRow| row_view(r)) =~= before.map_values(|r: HtmlRow| row_view(r)).push(row_view(row)));
        assert(rows_model(views.take(j + 1)) =~= rows_model(views.take(j as int)).push(row_model(views[j as int])));
        j += 1;
    }
    assert(views.take(elements@.len() as int) =~= views);
    HtmlTable { text: text_of(table), rows }
}

/// Reads the tables that `table_selector` picks from a page, with their
/// rows (`tr`) and cells (`th, td`), and the page's text, as
/// `section_model` says. Fails with the message of a selector that does
/// not parse: `table_selector` first, then the fixed ones it reads cells
/// with.
pub fn read_html_section(html: &str, table_selector: &str) -> (res: Result<HtmlSection, String>)
    ensures
        selector_message(table_selector@) matches Some(m) ==> res matches Err(e) && e@ == m,
        res matches Err(e) ==> selector_message(table_selector@) == Some(e@) || fixed_selector_message(e@),
        selector_message(table_selector@) is None && fixed_selectors_parse() ==> res is Ok,
        res matches Ok(sec) ==> section_view(sec) == section_model(html@, table_selector@),
        res matches Ok(sec) ==> section_normalized(sec),
{
    let elements = match select(html, table_selector) {
        Ok(v) => v,
        Err(m) => {
            return Err(m);
        },
    };
    match check_selector("tr") {
        Ok(()) => {},
        Err(m) => {
            return Err(m);
        },
    }
    match check_selector("th, td") {
        Ok(()) => {},
        Err(m) => {
            return Err(m);
        },
    }
    match check_selector("div") {
        Ok(()) => {},
        Err(m) => {
            return Err(m);
        },
    }
    match check_selector("a[title]") {
        Ok(()) => {},
        Err(m) => {
            return Err(m);
        },
    }
    match check_selector("img") {
        Ok(()) => {},
        Err(m) => {
            return Err(m);
        },
    }
    match check_selector("html") {
        Ok(()) => {},
        Err(m) => {
            return Err(m);
        },
    }
    let ghost views = element_views(elements@);
    let mut tables: Vec<HtmlTable> = Vec::new();
    let mut i: usize = 0;
    while i < elements.len()
        invariant
            i <= elements@.len(),
            fixed_selectors_parse(),
            views == element_views(elements@),
            tables@.map_values(|t: HtmlTable| table_view(t)) == tables_model(views.take(i as int)),
            forall|t: int| 0 <= t < tables@.len() ==> table_normalized(#[trigger] tables@[t]),
        decreases elements@.len() - i,
    {
        let table = read_table(&elements[i]);
        let ghost before = tables@;
        tables.push(table);
        assert(tables@ =~= before.push(table));
        assert(tables@.map_values(|t: HtmlTable| table_view(t)) =~= before.map_values(|t: HtmlTable| table_view(t)).push(table_view(table)));
        assert(tables_model(views.take(i + 1)) =~= tables_model(views.take(i as int)).push(table_model(views[i as int])));
        i += 1;
    }
    assert(views.take(elements@.len() as int) =~= views);
    let roots = select_parsed(html, "html");
    let text = if roots.len() > 0 {
        text_of(&roots[0])
    } else {
        let empty = String::new();
        let t = normalize_text(empty.as_str());
        assert(normalized_text(t@)) by {
            assert(t@ == join(words(empty@), seq![' ']));
        }
        t
    };
    Ok(HtmlSection { text, tables })
}

} // verus!
