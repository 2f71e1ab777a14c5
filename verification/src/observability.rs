//! What a build tells of itself: its id, its events and its report.
use vstd::prelude::*;
use vstd::string::*;

use crate::config::BuildReport;
use crate::data;
use crate::failure;
use crate::failure::{failure, Failure};
use crate::fspath;
use crate::json;
use crate::text;
use crate::text::copy_text;

verus! {

/// The id of the build with this number that begins at this time.
pub fn build_id(now_ms: u128, seq: u64) -> (r: String)
    ensures
        r@ == "build-"@ + text::decimal(now_ms as nat) + "-"@ + text::decimal(seq as nat),
{
    let mut out = copy_text("build-");
    let now = text::decimal_text(now_ms);
    out.append(now.as_str());
    out.append("-");
    let n = text::decimal_text(seq as u128);
    out.append(n.as_str());
    out
}

/// The line of an event.
pub open spec fn event_json(stage: Seq<char>, id: Seq<char>, payload: Seq<char>) -> Seq<char> {
    json::json_object(
        seq![
            json::json_member("build_id"@, json::json_string(id)),
            json::json_member("payload"@, payload),
            json::json_member("stage"@, json::json_string(stage)),
        ],
    )
}

/// Computes [`event_json`].
pub fn event_line(stage: &str, id: &str, payload_json: &str) -> (r: String)
    ensures
        r@ == event_json(stage@, id@, payload_json@),
{
    let mut items: Vec<String> = Vec::new();
    let id_json = json::json_string_text(id);
    items.push(json::member_text("build_id", id_json.as_str()));
    items.push(json::member_text("payload", payload_json));
    let stage_json = json::json_string_text(stage);
    items.push(json::member_text("stage", stage_json.as_str()));
    assert(text::texts(items@) =~= seq![items@[0]@, items@[1]@, items@[2]@]);
    json::object_text(&items)
}

/// The report of a build, as JSON.
pub open spec fn report_json(id: Seq<char>, duration_ms: u128, r: BuildReport) -> Seq<char> {
    json::json_object(
        seq![
            json::json_member("ai_indexed_pages"@, text::decimal(r.ai_indexed_pages as nat)),
            json::json_member(
                "broken_external_links"@,
                text::decimal(r.broken_external_links as nat),
            ),
            json::json_member("build_id"@, json::json_string(id)),
            json::json_member(
                "checked_external_links"@,
                text::decimal(r.checked_external_links as nat),
            ),
            json::json_member("compiled_sass"@, text::decimal(r.compiled_sass as nat)),
            json::json_member("compiled_tailwind"@, json::json_bool(r.compiled_tailwind)),
            json::json_member("copied_assets"@, text::decimal(r.copied_assets as nat)),
            json::json_member("duration_ms"@, text::decimal(duration_ms as nat)),
            json::json_member("island_pages"@, text::decimal(r.island_pages as nat)),
            json::json_member("processed_images"@, text::decimal(r.processed_images as nat)),
            json::json_member("processed_scripts"@, text::decimal(r.processed_scripts as nat)),
            json::json_member("rendered_pages"@, text::decimal(r.rendered_pages as nat)),
            json::json_member("skipped_pages"@, text::decimal(r.skipped_pages as nat)),
        ],
    )
}

/// A member with a number.
fn number_member(name: &str, n: u128) -> (r: String)
    ensures
        r@ == json::json_member(name@, text::decimal(n as nat)),
{
    let d = text::decimal_text(n);
    json::member_text(name, d.as_str())
}

/// Computes [`report_json`].
pub fn report_text(id: &str, duration_ms: u128, report: &BuildReport) -> (r: String)
    ensures
        r@ == report_json(id@, duration_ms, *report),
{
    let mut items: Vec<String> = Vec::new();
    items.push(number_member("ai_indexed_pages", report.ai_indexed_pages as u128));
    items.push(number_member("broken_external_links", report.broken_external_links as u128));
    let id_json = json::json_string_text(id);
    items.push(json::member_text("build_id", id_json.as_str()));
    items.push(number_member("checked_external_links", report.checked_external_links as u128));
    items.push(number_member("compiled_sass", report.compiled_sass as u128));
    items.push(json::member_text("compiled_tailwind", json::bool_text(report.compiled_tailwind)));
    items.push(number_member("copied_assets", report.copied_assets as u128));
    items.push(number_member("duration_ms", duration_ms));
    items.push(number_member("island_pages", report.island_pages as u128));
    items.push(number_member("processed_images", report.processed_images as u128));
    items.push(number_member("processed_scripts", report.processed_scripts as u128));
    items.push(number_member("rendered_pages", report.rendered_pages as u128));
    items.push(number_member("skipped_pages", report.skipped_pages as u128));
    assert(text::texts(items@) =~= seq![
        items@[0]@,
        items@[1]@,
        items@[2]@,
        items@[3]@,
        items@[4]@,
        items@[5]@,
        items@[6]@,
        items@[7]@,
        items@[8]@,
        items@[9]@,
        items@[10]@,
        items@[11]@,
        items@[12]@,
    ]);
    json::object_text(&items)
}

/// The path of the build report.
pub open spec fn report_file(output_dir: Seq<char>) -> Seq<char> {
    fspath::join(fspath::join(output_dir, "_nanoss"@), "build-report.json"@)
}

/// Computes [`report_file`].
pub fn report_path(output_dir: &str) -> (r: String)
    ensures
        r@ == report_file(output_dir@),
{
    let dir = fspath::path_join(output_dir, "_nanoss");
    fspath::path_join(dir.as_str(), "build-report.json")
}

/// The text of the build report: its JSON over several lines.
pub fn write_build_report(id: &str, duration_ms: u128, report: &BuildReport) -> (r: Result<
    String,
    Failure,
>)
    ensures
        failure::text_outcome(r) == data::pretty_json(report_json(id@, duration_ms, *report)),
{
    let compact = report_text(id, duration_ms, report);
    match data::write_pretty(compact.as_str()) {
        Ok(s) => Ok(s),
        Err(m) => Err(failure(m)),
    }
}

/// An event names its build and its stage, and carries its payload.
pub proof fn law_event_has_its_parts(stage: Seq<char>, id: Seq<char>, payload: Seq<char>)
    ensures
        json::has_member(event_json(stage, id, payload), "build_id"@, json::json_string(id)),
        json::has_member(event_json(stage, id, payload), "payload"@, payload),
        json::has_member(event_json(stage, id, payload), "stage"@, json::json_string(stage)),
{
    let items = seq![
        json::json_member("build_id"@, json::json_string(id)),
        json::json_member("payload"@, payload),
        json::json_member("stage"@, json::json_string(stage)),
    ];
    json::law_object_has_its_members(items, 0, "build_id"@, json::json_string(id));
    json::law_object_has_its_members(items, 1, "payload"@, payload);
    json::law_object_has_its_members(items, 2, "stage"@, json::json_string(stage));
}

/// The report of a build has each of its numbers under its name.
pub proof fn law_report_has_its_numbers(id: Seq<char>, ms: u128, r: BuildReport)
    ensures
        json::has_member(report_json(id, ms, r), "build_id"@, json::json_string(id)),
        json::has_member(report_json(id, ms, r), "duration_ms"@, text::decimal(ms as nat)),
        json::has_member(
            report_json(id, ms, r),
            "rendered_pages"@,
            text::decimal(r.rendered_pages as nat),
        ),
        json::has_member(
            report_json(id, ms, r),
            "skipped_pages"@,
            text::decimal(r.skipped_pages as nat),
        ),
        json::has_member(
            report_json(id, ms, r),
            "compiled_sass"@,
            text::decimal(r.compiled_sass as nat),
        ),
        json::has_member(
            report_json(id, ms, r),
            "copied_assets"@,
            text::decimal(r.copied_assets as nat),
        ),
        json::has_member(
            report_json(id, ms, r),
            "processed_scripts"@,
            text::decimal(r.processed_scripts as nat),
        ),
        json::has_member(
            report_json(id, ms, r),
            "processed_images"@,
            text::decimal(r.processed_images as nat),
        ),
        json::has_member(
            report_json(id, ms, r),
            "checked_external_links"@,
            text::decimal(r.checked_external_links as nat),
        ),
        json::has_member(
            report_json(id, ms, r),
            "broken_external_links"@,
            text::decimal(r.broken_external_links as nat),
        ),
        json::has_member(
            report_json(id, ms, r),
            "island_pages"@,
            text::decimal(r.island_pages as nat),
        ),
        json::has_member(
            report_json(id, ms, r),
            "ai_indexed_pages"@,
            text::decimal(r.ai_indexed_pages as nat),
        ),
        json::has_member(
            report_json(id, ms, r),
            "compiled_tailwind"@,
            if r.compiled_tailwind {
                "true"@
            } else {
                "false"@
            },
        ),
{
    let items = seq![
        json::json_member("ai_indexed_pages"@, text::decimal(r.ai_indexed_pages as nat)),
        json::json_member("broken_external_links"@, text::decimal(r.broken_external_links as nat)),
        json::json_member("build_id"@, json::json_string(id)),
        json::json_member("checked_external_links"@, text::decimal(r.checked_external_links as nat)),
        json::json_member("compiled_sass"@, text::decimal(r.compiled_sass as nat)),
        json::json_member("compiled_tailwind"@, json::json_bool(r.compiled_tailwind)),
        json::json_member("copied_assets"@, text::decimal(r.copied_assets as nat)),
        json::json_member("duration_ms"@, text::decimal(ms as nat)),
        json::json_member("island_pages"@, text::decimal(r.island_pages as nat)),
        json::json_member("processed_images"@, text::decimal(r.processed_images as nat)),
        json::json_member("processed_scripts"@, text::decimal(r.processed_scripts as nat)),
        json::json_member("rendered_pages"@, text::decimal(r.rendered_pages as nat)),
        json::json_member("skipped_pages"@, text::decimal(r.skipped_pages as nat)),
    ];
    assert(report_json(id, ms, r) == json::json_object(items));
    json::law_object_has_its_members(
        items,
        0,
        "ai_indexed_pages"@,
        text::decimal(r.ai_indexed_pages as nat),
    );
    json::law_object_has_its_members(
        items,
        1,
        "broken_external_links"@,
        text::decimal(r.broken_external_links as nat),
    );
    json::law_object_has_its_members(items, 2, "build_id"@, json::json_string(id));
    json::law_object_has_its_members(
        items,
        3,
        "checked_external_links"@,
        text::decimal(r.checked_external_links as nat),
    );
    json::law_object_has_its_members(
        items,
        4,
        "compiled_sass"@,
        text::decimal(r.compiled_sass as nat),
    );
    json::law_object_has_its_members(
        items,
        5,
        "compiled_tailwind"@,
        json::json_bool(r.compiled_tailwind),
    );
    json::law_object_has_its_members(
        items,
        6,
        "copied_assets"@,
        text::decimal(r.copied_assets as nat),
    );
    json::law_object_has_its_members(items, 7, "duration_ms"@, text::decimal(ms as nat));
    json::law_object_has_its_members(
        items,
        8,
        "island_pages"@,
        text::decimal(r.island_pages as nat),
    );
    json::law_object_has_its_members(
        items,
        9,
        "processed_images"@,
        text::decimal(r.processed_images as nat),
    );
    json::law_object_has_its_members(
        items,
        10,
        "processed_scripts"@,
        text::decimal(r.processed_scripts as nat),
    );
    json::law_object_has_its_members(
        items,
        11,
        "rendered_pages"@,
        text::decimal(r.rendered_pages as nat),
    );
    json::law_object_has_its_members(
        items,
        12,
        "skipped_pages"@,
        text::decimal(r.skipped_pages as nat),
    );
}

/// The report stands below the output directory, in a directory of its own.
pub proof fn law_place_of_the_report(output_dir: Seq<char>)
    requires
        output_dir.len() > 0 && output_dir.last() != '/',
    ensures
        report_file(output_dir) == output_dir + "/_nanoss/build-report.json"@,
{
    reveal_strlit("_nanoss");
    reveal_strlit("build-report.json");
    reveal_strlit("/_nanoss/build-report.json");
    let a = output_dir + seq!['/'] + "_nanoss"@;
    assert("_nanoss"@[0] == '_' && "build-report.json"@[0] == 'b');
    assert(fspath::join(output_dir, "_nanoss"@) =~= a);
    assert(a.last() == 's');
    assert(report_file(output_dir) =~= a + seq!['/'] + "build-report.json"@);
    assert(report_file(output_dir) =~= output_dir + "/_nanoss/build-report.json"@);
}

} // verus!
