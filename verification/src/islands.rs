//! Components and islands: the shortcodes of a page, and the interactive parts
//! that its browser brings to life.
use vstd::prelude::*;
use vstd::slice::slice_subrange;
use vstd::string::*;

use crate::fspath;
use crate::html;
use crate::json;
use crate::order;
use crate::pattern;
use crate::text;
use crate::text::{copy_text, push_chars, same_text, text_of, to_chars};

verus! {

// ---------------------------------------------------------------------------
// Components.

/// The attributes of a shortcode, in the order of their names; of two values of
/// one name the last counts.
pub open spec fn attribute_rows(found: Seq<Seq<Option<Seq<char>>>>) -> Seq<(Seq<char>, Seq<char>)>
    decreases found.len(),
{
    if found.len() == 0 {
        Seq::empty()
    } else {
        let rest = attribute_rows(found.drop_last());
        let key = pattern::group_or(found.last(), 1, ""@);
        if key.len() > 0 {
            order::put(rest, key, pattern::group_or(found.last(), 2, ""@))
        } else {
            rest
        }
    }
}

/// The members of the properties of an island: all attributes but `mode`.
pub open spec fn prop_members(rows: Seq<(Seq<char>, Seq<char>)>) -> Seq<Seq<char>>
    decreases rows.len(),
{
    if rows.len() == 0 {
        Seq::empty()
    } else {
        let rest = prop_members(rows.drop_last());
        if rows.last().0 == "mode"@ {
            rest
        } else {
            rest.push(json::json_member(rows.last().0, json::json_string(rows.last().1)))
        }
    }
}

/// What the component `name` with these attributes becomes: an island where its
/// mode says so, else a box with its text.
pub open spec fn component_of(name: Seq<char>, rows: Seq<(Seq<char>, Seq<char>)>) -> Seq<char> {
    let mode = order::get(rows, "mode"@).unwrap_or("static"@);
    if mode == "island"@ {
        "<island name=\"component-"@ + html::token_part(name) + "\" props='"@ + html::escaped(
            json::json_object(prop_members(rows)),
        ) + "'></island>"@
    } else {
        let content = order::get(rows, "text"@).unwrap_or("component: "@ + name);
        "<div class=\"nanoss-component nanoss-component-"@ + html::token_part(name) + "\">"@
            + html::escaped(content) + "</div>"@
    }
}

/// What one shortcode becomes, given the groups of its match.
pub open spec fn shortcode_of(groups: Seq<Option<Seq<char>>>) -> Seq<char> {
    component_of(
        pattern::group_or(groups, 1, "component"@),
        attribute_rows(
            pattern::matches_of(
                pattern::COMPONENT_ATTRIBUTE@,
                pattern::group_or(groups, 2, ""@),
            ),
        ),
    )
}

/// What all shortcodes become.
pub open spec fn shortcodes_of(found: Seq<Seq<Option<Seq<char>>>>) -> Seq<Seq<char>> {
    Seq::new(found.len(), |i: int| shortcode_of(found[i]))
}

/// `markdown` with its component shortcodes replaced by what they become.
pub open spec fn expanded(markdown: Seq<char>) -> Seq<char> {
    pattern::weave(
        pattern::gaps_of(pattern::COMPONENT@, markdown),
        shortcodes_of(pattern::matches_of(pattern::COMPONENT@, markdown)),
    )
}

/// Computes [`attribute_rows`].
pub fn collect_attributes(found: &Vec<Vec<Option<String>>>) -> (r: Vec<(String, String)>)
    ensures
        order::rows(r@) == attribute_rows(pattern::match_views(found@)),
        order::keys_increase(order::rows(r@)),
{
    let mut out: Vec<(String, String)> = Vec::new();
    let ghost all = pattern::match_views(found@);
    let mut i: usize = 0;
    assert(all.take(0) =~= Seq::empty());
    assert(order::rows(out@) =~= Seq::empty());
    while i < found.len()
        invariant
            i <= found.len(),
            all == pattern::match_views(found@),
            order::rows(out@) == attribute_rows(all.take(i as int)),
            order::keys_increase(order::rows(out@)),
        decreases found.len() - i,
    {
        assert(all.take(i + 1).drop_last() =~= all.take(i as int));
        assert(all.take(i + 1).last() == pattern::group_views(found@[i as int]@));
        let key = pattern::group_text(&found[i], 1, "");
        let value = pattern::group_text(&found[i], 2, "");
        if !key.as_str().is_empty() {
            order::put_row(&mut out, key.as_str(), value);
        }
        i += 1;
    }
    assert(all.take(found.len() as int) =~= all);
    out
}

/// Computes [`prop_members`].
fn collect_members(rows: &Vec<(String, String)>) -> (r: Vec<String>)
    ensures
        text::texts(r@) == prop_members(order::rows(rows@)),
{
    let mut out: Vec<String> = Vec::new();
    let ghost all = order::rows(rows@);
    let mut i: usize = 0;
    assert(all.take(0) =~= Seq::empty());
    assert(text::texts(out@) =~= Seq::empty());
    while i < rows.len()
        invariant
            i <= rows.len(),
            all == order::rows(rows@),
            text::texts(out@) == prop_members(all.take(i as int)),
        decreases rows.len() - i,
    {
        assert(all.take(i + 1).drop_last() =~= all.take(i as int));
        assert(all.take(i + 1).last() == (rows@[i as int].0@, rows@[i as int].1@));
        if !same_text(rows[i].0.as_str(), "mode") {
            let value = json::json_string_text(rows[i].1.as_str());
            let ghost before = out@;
            let member = json::member_text(rows[i].0.as_str(), value.as_str());
            let ghost m = member@;
            out.push(member);
            assert(text::texts(out@) =~= text::texts(before).push(m));
        }
        i += 1;
    }
    assert(all.take(rows.len() as int) =~= all);
    out
}

/// Computes [`component_of`].
pub fn component_html(name: &str, rows: &Vec<(String, String)>) -> (r: String)
    requires
        order::keys_increase(order::rows(rows@)),
    ensures
        r@ == component_of(name@, order::rows(rows@)),
{
    let token = html::sanitize_language_token(name);
    let is_island = match order::find_row(rows, "mode") {
        Some(i) => same_text(rows[i].1.as_str(), "island"),
        None => {
            proof {
                reveal_strlit("static");
                reveal_strlit("island");
                assert("static"@[0] != "island"@[0]);
            }
            false
        },
    };
    if is_island {
        let members = collect_members(rows);
        let props = json::object_text(&members);
        let props = html::escape_html(props.as_str());
        let mut out = copy_text("<island name=\"component-");
        out.append(token.as_str());
        out.append("\" props='");
        out.append(props.as_str());
        out.append("'></island>");
        return out;
    }
    let content = match order::find_row(rows, "text") {
        Some(i) => copy_text(rows[i].1.as_str()),
        None => text::concat("component: ", name),
    };
    let content = html::escape_html(content.as_str());
    let mut out = copy_text("<div class=\"nanoss-component nanoss-component-");
    out.append(token.as_str());
    out.append("\">");
    out.append(content.as_str());
    out.append("</div>");
    out
}

/// Computes [`expanded`].
pub fn expand_component_shortcodes(markdown: &str) -> (r: String)
    ensures
        r@ == expanded(markdown@),
{
    let found = pattern::find_matches(pattern::COMPONENT, markdown);
    let gaps = pattern::find_gaps(pattern::COMPONENT, markdown);
    let ghost all = pattern::match_views(found@);
    let mut fills: Vec<String> = Vec::new();
    let mut i: usize = 0;
    while i < found.len()
        invariant
            i <= found.len(),
            all == pattern::match_views(found@),
            fills@.len() == i,
            forall|j: int| 0 <= j < i ==> #[trigger] fills@[j]@ == shortcode_of(all[j]),
        decreases found.len() - i,
    {
        assert(all[i as int] == pattern::group_views(found@[i as int]@));
        let name = pattern::group_text(&found[i], 1, "component");
        let attrs = pattern::group_text(&found[i], 2, "");
        let pairs = pattern::find_matches(pattern::COMPONENT_ATTRIBUTE, attrs.as_str());
        let rows = collect_attributes(&pairs);
        fills.push(component_html(name.as_str(), &rows));
        i += 1;
    }
    assert(text::texts(fills@) =~= shortcodes_of(all));
    pattern::weave_texts(&gaps, &fills)
}

// ---------------------------------------------------------------------------
// Islands.

/// The element that an island becomes, given the groups of its match.
pub open spec fn island_of(groups: Seq<Option<Seq<char>>>) -> Seq<char> {
    "<div data-island=\""@ + html::escaped(pattern::group_or(groups, 1, ""@)) + "\" data-props='"@
        + html::escaped(pattern::group_or(groups, 2, "{}"@)) + "'></div>"@
}

/// The elements that all islands become.
pub open spec fn islands_of(found: Seq<Seq<Option<Seq<char>>>>) -> Seq<Seq<char>> {
    Seq::new(found.len(), |i: int| island_of(found[i]))
}

/// The element that loads the islands runtime.
pub const RUNTIME_SCRIPT: &'static str =
    "<script type=\"module\" src=\"/_nanoss/islands-runtime.js\"></script>";

/// `html` with the runtime script and a line break put in at position `i`.
pub open spec fn script_at(html: Seq<char>, i: int) -> Seq<char> {
    html.take(i) + RUNTIME_SCRIPT@ + seq!['\n'] + html.skip(i)
}

/// `html` with the runtime script: before the last `</body>`, else before the
/// last `</html>`, else at the end.
pub open spec fn with_runtime_script(html: Seq<char>) -> Seq<char> {
    match text::rfind(html, "</body>"@) {
        Some(i) => script_at(html, i),
        None => match text::rfind(html, "</html>"@) {
            Some(i) => script_at(html, i),
            None => html + seq!['\n'] + RUNTIME_SCRIPT@,
        },
    }
}

/// A page with its islands compiled, given the matches of its islands and what
/// stands around them.
pub open spec fn islands_page(found: Seq<Seq<Option<Seq<char>>>>, gaps: Seq<Seq<char>>) -> Seq<char> {
    let woven = pattern::weave(gaps, islands_of(found));
    if found.len() > 0 {
        with_runtime_script(woven)
    } else {
        woven
    }
}

/// Puts the runtime script in at position `i`.
fn put_script(v: &Vec<char>, i: usize) -> (r: String)
    requires
        i <= v.len(),
    ensures
        r@ == script_at(v@, i as int),
{
    assert(v@.subrange(0, i as int) =~= v@.take(i as int));
    assert(v@.subrange(i as int, v@.len() as int) =~= v@.skip(i as int));
    let mut out = text_of(slice_subrange(v.as_slice(), 0, i));
    out.append(RUNTIME_SCRIPT);
    out.push('\n');
    push_chars(&mut out, slice_subrange(v.as_slice(), i, v.len()));
    assert(out@ =~= script_at(v@, i as int));
    out
}

/// Computes [`with_runtime_script`].
pub fn inject_islands_runtime_script(html: &str) -> (r: String)
    ensures
        r@ == with_runtime_script(html@),
{
    let v = to_chars(html);
    proof {
        text::lemma_rfind_from(html@, "</body>"@, html@.len() - "</body>"@.len());
        text::lemma_rfind_from(html@, "</html>"@, html@.len() - "</html>"@.len());
    }
    match text::rfind_text(v.as_slice(), "</body>") {
        Some(i) => put_script(&v, i),
        None => match text::rfind_text(v.as_slice(), "</html>") {
            Some(i) => put_script(&v, i),
            None => {
                let mut out = copy_text(html);
                out.push('\n');
                out.append(RUNTIME_SCRIPT);
                assert(out@ =~= html@ + seq!['\n'] + RUNTIME_SCRIPT@);
                out
            },
        },
    }
}

/// Computes [`islands_page`], and whether there is an island.
pub fn assemble_islands(found: &Vec<Vec<Option<String>>>, gaps: &Vec<String>) -> (r: (String, bool))
    ensures
        r.0@ == islands_page(pattern::match_views(found@), text::texts(gaps@)),
        r.1 == (found@.len() > 0),
{
    let ghost all = pattern::match_views(found@);
    let mut fills: Vec<String> = Vec::new();
    let mut i: usize = 0;
    while i < found.len()
        invariant
            i <= found.len(),
            all == pattern::match_views(found@),
            fills@.len() == i,
            forall|j: int| 0 <= j < i ==> #[trigger] fills@[j]@ == island_of(all[j]),
        decreases found.len() - i,
    {
        assert(all[i as int] == pattern::group_views(found@[i as int]@));
        let name = pattern::group_text(&found[i], 1, "");
        let name = html::escape_html(name.as_str());
        let props = pattern::group_text(&found[i], 2, "{}");
        let props = html::escape_html(props.as_str());
        let mut out = copy_text("<div data-island=\"");
        out.append(name.as_str());
        out.append("\" data-props='");
        out.append(props.as_str());
        out.append("'></div>");
        fills.push(out);
        i += 1;
    }
    assert(text::texts(fills@) =~= islands_of(all));
    let woven = pattern::weave_texts(gaps, &fills);
    if found.len() > 0 {
        (inject_islands_runtime_script(woven.as_str()), true)
    } else {
        (woven, false)
    }
}

/// The page with its islands compiled, and whether it has any.
pub fn compile_islands(html: &str) -> (r: (String, bool))
    ensures
        r.0@ == islands_page(
            pattern::matches_of(pattern::ISLAND@, html@),
            pattern::gaps_of(pattern::ISLAND@, html@),
        ),
        r.1 == (pattern::matches_of(pattern::ISLAND@, html@).len() > 0),
        !r.1 ==> r.0@ == html@,
{
    let found = pattern::find_matches(pattern::ISLAND, html);
    let gaps = pattern::find_gaps(pattern::ISLAND, html);
    proof {
        if found@.len() == 0 {
            let all = pattern::match_views(found@);
            let g = text::texts(gaps@);
            pattern::lemma_no_match(g, islands_of(all));
            pattern::lemma_no_match(g, pattern::group_texts(all, 0));
        }
    }
    assemble_islands(&found, &gaps)
}

/// The runtime script stands before the last `</body>` of a page that has one.
pub proof fn law_script_before_body_end(html: Seq<char>)
    requires
        text::contains_text(html, "</body>"@),
    ensures
        exists|i: int|
            #![trigger html.take(i)]
            text::rfind(html, "</body>"@) == Some(i) && with_runtime_script(html) == html.take(i)
                + RUNTIME_SCRIPT@ + seq!['\n'] + html.skip(i) && text::starts_with(
                html.skip(i),
                "</body>"@,
            ),
{
    let p = "</body>"@;
    text::lemma_rfind_from(html, p, html.len() - p.len());
    let w = choose|w: int| text::occurs_at(html, p, w);
    assert(w <= html.len() - p.len());
    let i = text::rfind(html, p).unwrap();
    assert(html.skip(i).take(p.len() as int) =~= html.subrange(i, i + p.len()));
    assert(with_runtime_script(html) == html.take(i) + RUNTIME_SCRIPT@ + seq!['\n'] + html.skip(i));
}

/// The path of the islands runtime in the output directory.
pub open spec fn runtime_path(output_root: Seq<char>) -> Seq<char> {
    fspath::join(fspath::join(output_root, "_nanoss"@), "islands-runtime.js"@)
}

/// Computes [`runtime_path`].
pub fn islands_runtime_path(output_root: &str) -> (r: String)
    ensures
        r@ == runtime_path(output_root@),
{
    let dir = fspath::path_join(output_root, "_nanoss");
    fspath::path_join(dir.as_str(), "islands-runtime.js")
}

/// The script that brings islands to life in the browser.
pub const ISLANDS_RUNTIME: &'static str = "const registry = new Map();

function parseProps(node) {
    const raw = node.getAttribute('data-props') || '{}';
    try {
        return JSON.parse(raw);
    } catch {
        return {};
    }
}

function mountNode(node) {
    const name = node.getAttribute('data-island');
    if (!name) return;

    const handler = registry.get(name);
    if (!handler) {
        node.setAttribute('data-island-pending', 'true');
        if (!node.textContent || !node.textContent.trim()) {
            node.textContent = `[island:${name}] waiting for register()`;
        }
        return;
    }

    const props = parseProps(node);
    handler(node, props);
    node.removeAttribute('data-island-pending');
    node.setAttribute('data-island-hydrated', 'true');
}

function hydrate(targetName) {
    const nodes = document.querySelectorAll('[data-island]');
    for (const node of nodes) {
        const current = node.getAttribute('data-island');
        if (!targetName || current === targetName) {
            mountNode(node);
        }
    }
}

const api = {
    register(name, handler) {
        if (typeof name !== 'string' || !name) {
            throw new Error('NanossIslands.register(name, handler): name must be non-empty string');
        }
        if (typeof handler !== 'function') {
            throw new Error('NanossIslands.register(name, handler): handler must be function');
        }
        registry.set(name, handler);
        hydrate(name);
    },
    hydrate,
};

if (!window.NanossIslands) {
    window.NanossIslands = api;
} else {
    window.NanossIslands.register = api.register;
    window.NanossIslands.hydrate = api.hydrate;
}

if (document.readyState === 'loading') {
    document.addEventListener('DOMContentLoaded', () => hydrate());
} else {
    hydrate();
}
";

// ---------------------------------------------------------------------------
// Laws.

/// An attribute of a shortcode has the value that stands last for its name; no name
/// has a value that the shortcode does not give it.
pub proof fn law_attributes(found: Seq<Seq<Option<Seq<char>>>>, key: Seq<char>)
    requires
        key.len() > 0,
    ensures
        forall|i: int|
            #![trigger found[i]]
            0 <= i < found.len() && found[i].len() > 2 && found[i][1] == Some(key)
                && found[i][2] is Some && (forall|j: int|
                i < j < found.len() ==> pattern::group_or(#[trigger] found[j], 1, ""@) != key)
                ==> order::get(attribute_rows(found), key) == found[i][2],
        (forall|i: int|
            0 <= i < found.len() ==> pattern::group_or(#[trigger] found[i], 1, ""@) != key)
            ==> order::get(attribute_rows(found), key) is None,
    decreases found.len(),
{
    if found.len() > 0 {
        let front = found.drop_last();
        let last = found.last();
        let name = pattern::group_or(last, 1, ""@);
        let value = pattern::group_or(last, 2, ""@);
        law_attributes(front, key);
        order::law_get_after_put(attribute_rows(front), name, value, key);
        assert(found[found.len() - 1] == last);
        assert forall|i: int|
            #![trigger found[i]]
            0 <= i < found.len() && found[i].len() > 2 && found[i][1] == Some(key)
                && found[i][2] is Some && (forall|j: int|
                i < j < found.len() ==> pattern::group_or(#[trigger] found[j], 1, ""@)
                    != key) implies order::get(attribute_rows(found), key) == found[i][2] by {
            if i < front.len() {
                assert(front[i] == found[i]);
                assert(pattern::group_or(found[found.len() - 1], 1, ""@) != key);
                assert forall|j: int| i < j < front.len() implies pattern::group_or(
                    #[trigger] front[j],
                    1,
                    ""@,
                ) != key by {
                    assert(pattern::group_or(found[j], 1, ""@) != key);
                }
            }
        }
        if forall|i: int|
            0 <= i < found.len() ==> pattern::group_or(#[trigger] found[i], 1, ""@) != key {
            assert forall|i: int| 0 <= i < front.len() implies pattern::group_or(
                #[trigger] front[i],
                1,
                ""@,
            ) != key by {
                assert(pattern::group_or(found[i], 1, ""@) != key);
            }
            assert(pattern::group_or(found[found.len() - 1], 1, ""@) != key);
        }
    }
}

/// The properties of an island are the attributes of its shortcode but `mode`, in
/// order: for each a member with its name and its value, and no other member.
pub proof fn law_island_properties(rows: Seq<(Seq<char>, Seq<char>)>)
    ensures
        prop_members(rows) == rows.filter(|r: (Seq<char>, Seq<char>)| r.0 != "mode"@).map_values(
            |r: (Seq<char>, Seq<char>)| json::json_string(r.0) + seq![':'] + json::json_string(r.1),
        ),
    decreases rows.len(),
{
    reveal(Seq::filter);
    let keep = |r: (Seq<char>, Seq<char>)| r.0 != "mode"@;
    let member = |r: (Seq<char>, Seq<char>)|
        json::json_string(r.0) + seq![':'] + json::json_string(r.1);
    if rows.len() > 0 {
        law_island_properties(rows.drop_last());
        let rest = rows.drop_last().filter(keep);
        assert(rest.push(rows.last()).map_values(member) =~= rest.map_values(member).push(
            member(rows.last()),
        ));
    } else {
        assert(rows.filter(keep).map_values(member) =~= Seq::empty());
    }
}

/// Every attribute but `mode` is a member of the properties, with its value.
proof fn lemma_property_of_attribute(rows: Seq<(Seq<char>, Seq<char>)>, i: int) -> (k: int)
    requires
        0 <= i < rows.len(),
        rows[i].0 != "mode"@,
    ensures
        0 <= k < prop_members(rows).len(),
        prop_members(rows)[k] == json::json_member(rows[i].0, json::json_string(rows[i].1)),
    decreases rows.len(),
{
    if i == rows.len() - 1 {
        prop_members(rows).len() - 1
    } else {
        let front = rows.drop_last();
        assert(front[i] == rows[i]);
        lemma_property_of_attribute(front, i)
    }
}

/// A component is an island exactly where its mode is `island`: it then names the
/// component, and its properties have every other attribute as a member with its
/// value. Any other component is a box that shows its text, escaped, or else its
/// name.
pub proof fn law_component_shows_its_values(name: Seq<char>, rows: Seq<(Seq<char>, Seq<char>)>)
    ensures
        order::get(rows, "mode"@) == Some("island"@) ==> exists|props: Seq<char>|
            #![trigger html::escaped(props)]
            component_of(name, rows) == "<island name=\"component-"@ + html::token_part(name)
                + "\" props='"@ + html::escaped(props) + "'></island>"@ && (forall|i: int|
                #![trigger rows[i]]
                0 <= i < rows.len() && rows[i].0 != "mode"@ ==> json::has_member(
                    props,
                    rows[i].0,
                    json::json_string(rows[i].1),
                )),
        order::get(rows, "mode"@) != Some("island"@) ==> (order::get(rows, "text"@) matches Some(t)
            ==> component_of(name, rows) == "<div class=\"nanoss-component nanoss-component-"@
            + html::token_part(name) + "\">"@ + html::escaped(t) + "</div>"@),
        order::get(rows, "mode"@) != Some("island"@) && order::get(rows, "text"@) is None
            ==> component_of(name, rows) == "<div class=\"nanoss-component nanoss-component-"@
            + html::token_part(name) + "\">"@ + html::escaped("component: "@ + name) + "</div>"@,
{
    reveal_strlit("static");
    reveal_strlit("island");
    assert("static"@[0] != "island"@[0]);
    if order::get(rows, "mode"@) == Some("island"@) {
        let props = json::json_object(prop_members(rows));
        assert forall|i: int|
            #![trigger rows[i]]
            0 <= i < rows.len() && rows[i].0 != "mode"@ implies json::has_member(
            props,
            rows[i].0,
            json::json_string(rows[i].1),
        ) by {
            let k = lemma_property_of_attribute(rows, i);
            json::law_object_has_its_members(
                prop_members(rows),
                k,
                rows[i].0,
                json::json_string(rows[i].1),
            );
        }
        assert(component_of(name, rows) == "<island name=\"component-"@ + html::token_part(name)
            + "\" props='"@ + html::escaped(props) + "'></island>"@);
    }
}

/// Each shortcode becomes the component that it names, with the attributes that stand
/// in it; the text around the shortcodes stays.
pub proof fn law_shortcodes_are_replaced(
    gaps: Seq<Seq<char>>,
    found: Seq<Seq<Option<Seq<char>>>>,
)
    requires
        gaps.len() == found.len() + 1,
        forall|i: int|
            0 <= i < found.len() ==> (#[trigger] found[i]).len() > 2 && found[i][1] is Some
                && found[i][2] is Some,
    ensures
        pattern::weave(gaps, shortcodes_of(found)) == gaps[0] + Seq::new(
            found.len(),
            |i: int|
                component_of(
                    found[i][1].unwrap(),
                    attribute_rows(
                        pattern::matches_of(pattern::COMPONENT_ATTRIBUTE@, found[i][2].unwrap()),
                    ),
                ) + gaps[i + 1],
        ).flatten(),
{
    let fills = shortcodes_of(found);
    pattern::law_weave(gaps, fills);
    assert(Seq::new(fills.len(), |i: int| fills[i] + gaps[i + 1]) =~= Seq::new(
        found.len(),
        |i: int|
            component_of(
                found[i][1].unwrap(),
                attribute_rows(
                    pattern::matches_of(pattern::COMPONENT_ATTRIBUTE@, found[i][2].unwrap()),
                ),
            ) + gaps[i + 1],
    ));
}

/// Each island becomes an element with its name and its properties, both escaped; one
/// without properties has an empty object. The page around the islands stays.
pub proof fn law_islands_are_replaced(gaps: Seq<Seq<char>>, found: Seq<Seq<Option<Seq<char>>>>)
    requires
        gaps.len() == found.len() + 1,
        forall|i: int|
            0 <= i < found.len() ==> (#[trigger] found[i]).len() > 2 && found[i][1] is Some,
    ensures
        pattern::weave(gaps, islands_of(found)) == gaps[0] + Seq::new(
            found.len(),
            |i: int|
                "<div data-island=\""@ + html::escaped(found[i][1].unwrap()) + "\" data-props='"@
                    + html::escaped(
                    if found[i][2] is Some {
                        found[i][2].unwrap()
                    } else {
                        "{}"@
                    },
                ) + "'></div>"@ + gaps[i + 1],
        ).flatten(),
        found.len() == 0 ==> islands_page(found, gaps) == gaps[0],
{
    let fills = islands_of(found);
    pattern::law_weave(gaps, fills);
    let want = Seq::new(
        found.len(),
        |i: int|
            "<div data-island=\""@ + html::escaped(found[i][1].unwrap()) + "\" data-props='"@
                + html::escaped(
                if found[i][2] is Some {
                    found[i][2].unwrap()
                } else {
                    "{}"@
                },
            ) + "'></div>"@ + gaps[i + 1],
    );
    assert forall|i: int| 0 <= i < found.len() implies #[trigger] want[i] == fills[i] + gaps[i
        + 1] by {
        assert(found[i][1] is Some);
    }
    assert(Seq::new(fills.len(), |i: int| fills[i] + gaps[i + 1]) =~= want);
    if found.len() == 0 {
        pattern::lemma_no_match(gaps, fills);
    }
}

/// A page with islands loads their runtime, and is otherwise unchanged: the script
/// stands before the last `</html>` of a page that has one and no `</body>`, and at
/// the end of a page that has neither.
pub proof fn law_script_is_added(html: Seq<char>)
    requires
        !text::contains_text(html, "</body>"@),
    ensures
        text::contains_text(html, "</html>"@) ==> exists|i: int|
            #![trigger html.take(i)]
            text::occurs_at(html, "</html>"@, i) && (forall|k: int|
                k > i ==> !#[trigger] text::occurs_at(html, "</html>"@, k)) && with_runtime_script(
                html,
            ) == html.take(i)
                + "<script type=\"module\" src=\"/_nanoss/islands-runtime.js\"></script>"@
                + seq!['\n'] + html.skip(i),
        !text::contains_text(html, "</html>"@) ==> with_runtime_script(html) == html + seq!['\n']
            + "<script type=\"module\" src=\"/_nanoss/islands-runtime.js\"></script>"@,
{
    let b = "</body>"@;
    let p = "</html>"@;
    text::lemma_rfind_from(html, b, html.len() - b.len());
    text::lemma_rfind_from(html, p, html.len() - p.len());
    match text::rfind(html, p) {
        Some(i) => {
            assert(with_runtime_script(html) == html.take(i) + RUNTIME_SCRIPT@ + seq!['\n']
                + html.skip(i));
        },
        None => {
            if text::contains_text(html, p) {
                let w = choose|w: int| text::occurs_at(html, p, w);
                assert(w <= html.len() - p.len());
            }
        },
    }
}

/// A page without shortcodes stays as it is, as long as nothing is lost around them.
pub proof fn law_pages_without_shortcodes(markdown: Seq<char>)
    requires
        pattern::matches_of(pattern::COMPONENT@, markdown).len() == 0,
        pattern::gaps_of(pattern::COMPONENT@, markdown) == seq![markdown],
    ensures
        expanded(markdown) == markdown,
{
    let found = pattern::matches_of(pattern::COMPONENT@, markdown);
    let gaps = pattern::gaps_of(pattern::COMPONENT@, markdown);
    law_shortcodes_are_replaced(gaps, found);
    let parts = Seq::new(
        found.len(),
        |i: int|
            component_of(
                found[i][1].unwrap(),
                attribute_rows(
                    pattern::matches_of(pattern::COMPONENT_ATTRIBUTE@, found[i][2].unwrap()),
                ),
            ) + gaps[i + 1],
    );
    assert(parts.flatten() =~= Seq::empty());
    assert(gaps[0] + parts.flatten() =~= markdown);
}

/// A page with islands has its runtime script added, and a page without does not.
pub proof fn law_runtime_is_added_for_islands(
    found: Seq<Seq<Option<Seq<char>>>>,
    gaps: Seq<Seq<char>>,
)
    ensures
        found.len() > 0 ==> islands_page(found, gaps) == with_runtime_script(
            pattern::weave(gaps, islands_of(found)),
        ),
        found.len() == 0 ==> islands_page(found, gaps) == pattern::weave(gaps, islands_of(found)),
        islands_of(found).len() == found.len(),
{
}

/// The runtime stands where its script tag says, below the output directory.
pub proof fn law_place_of_the_runtime(output_dir: Seq<char>)
    requires
        output_dir.len() > 0 && output_dir.last() != '/',
    ensures
        runtime_path(output_dir) == output_dir + "/_nanoss/islands-runtime.js"@,
{
    reveal_strlit("_nanoss");
    reveal_strlit("islands-runtime.js");
    reveal_strlit("/_nanoss/islands-runtime.js");
    let a = output_dir + seq!['/'] + "_nanoss"@;
    assert("_nanoss"@[0] == '_' && "islands-runtime.js"@[0] == 'i');
    assert(fspath::join(output_dir, "_nanoss"@) =~= a);
    assert(a.last() == 's');
    assert(runtime_path(output_dir) =~= a + seq!['/'] + "islands-runtime.js"@);
    assert(runtime_path(output_dir) =~= output_dir + "/_nanoss/islands-runtime.js"@);
}

} // verus!
