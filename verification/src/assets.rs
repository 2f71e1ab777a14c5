//! Scripts and style sheets: what is run or copied for them, and what style
//! sheets become.
use vstd::prelude::*;
use vstd::string::*;

use crate::config::{JsBackend, TailwindConfig};
use crate::failure;
use crate::failure::{failure, Failure};
use crate::fspath;
use crate::pattern;
use crate::route;
use crate::text;
use crate::text::copy_text;

verus! {

// ---------------------------------------------------------------------------
// Commands.

/// A command that is to be run.
#[derive(Debug)]
pub struct CommandLine {
    pub binary: String,
    pub args: Vec<String>,
}

/// What is done for a script.
#[derive(Debug)]
pub enum ScriptAction {
    Copy { target: String },
    Run { target: String, command: CommandLine },
}

/// The file that a script is written to; TypeScript becomes JavaScript.
pub open spec fn script_target(
    source: Seq<char>,
    content_root: Seq<char>,
    output_root: Seq<char>,
) -> Result<Seq<char>, Seq<char>> {
    match fspath::strip_prefix(source, content_root) {
        None => Err(route::outside_message(source, content_root)),
        Some(rel) => {
            let target = fspath::join(output_root, rel);
            if fspath::extension(source) == Some("ts"@) {
                Ok(fspath::with_extension(target, "js"@))
            } else {
                Ok(target)
            }
        },
    }
}

/// The arguments that a script is bundled with.
pub open spec fn bundle_args(source: Seq<char>, target: Seq<char>) -> Seq<Seq<char>> {
    seq![source, "--bundle"@, "--minify"@, "--outfile"@, target]
}

/// What is done for a script: it is copied, or bundled by `esbuild`.
pub fn process_script_asset(
    source: &str,
    content_root: &str,
    output_root: &str,
    backend: JsBackend,
) -> (r: Result<ScriptAction, Failure>)
    ensures
        match r {
            Ok(ScriptAction::Copy { target }) => backend == JsBackend::Passthrough && script_target(
                source@,
                content_root@,
                output_root@,
            ) == Ok::<Seq<char>, Seq<char>>(target@),
            Ok(ScriptAction::Run { target, command }) => backend == JsBackend::Esbuild
                && script_target(source@, content_root@, output_root@) == Ok::<
                Seq<char>,
                Seq<char>,
            >(target@) && command.binary@ == "esbuild"@ && text::texts(command.args@)
                == bundle_args(source@, target@),
            Err(e) => script_target(source@, content_root@, output_root@) == Err::<
                Seq<char>,
                Seq<char>,
            >(e.message@),
        },
{
    let rel = match fspath::relative_to(source, content_root) {
        Some(rel) => rel,
        None => {
            let mut m = copy_text(source);
            m.append(" is not inside ");
            m.append(content_root);
            return Err(failure(m));
        },
    };
    let joined = fspath::path_join(output_root, rel.as_str());
    let target = if fspath::extension_is(source, "ts") {
        fspath::replace_extension(joined.as_str(), "js")
    } else {
        joined
    };
    match backend {
        JsBackend::Passthrough => Ok(ScriptAction::Copy { target }),
        JsBackend::Esbuild => {
            let mut args: Vec<String> = Vec::new();
            args.push(copy_text(source));
            args.push(copy_text("--bundle"));
            args.push(copy_text("--minify"));
            args.push(copy_text("--outfile"));
            args.push(copy_text(target.as_str()));
            assert(text::texts(args@) =~= bundle_args(source@, target@));
            Ok(
                ScriptAction::Run {
                    target,
                    command: CommandLine { binary: copy_text("esbuild"), args },
                },
            )
        },
    }
}

/// The arguments of the standalone Tailwind compiler.
pub open spec fn tailwind_args(config: TailwindConfig) -> Seq<Seq<char>> {
    let args = seq!["-i"@, config.input_css@, "-o"@, config.output_css@];
    if config.minify {
        args.push("--minify"@)
    } else {
        args
    }
}

/// The command that the standalone Tailwind compiler is run with.
pub fn tailwind_command(config: &TailwindConfig) -> (r: CommandLine)
    ensures
        r.binary@ == config.binary@,
        text::texts(r.args@) == tailwind_args(*config),
{
    let mut args: Vec<String> = Vec::new();
    args.push(copy_text("-i"));
    args.push(copy_text(config.input_css.as_str()));
    args.push(copy_text("-o"));
    args.push(copy_text(config.output_css.as_str()));
    if config.minify {
        args.push(copy_text("--minify"));
    }
    assert(text::texts(args@) =~= tailwind_args(*config));
    CommandLine { binary: copy_text(config.binary.as_str()), args }
}

/// How many seconds a command may run: at least one.
pub open spec fn timeout_of(secs: u64) -> u64 {
    if secs == 0 {
        1
    } else {
        secs
    }
}

/// What to do with a command that runs.
#[derive(Debug, Clone, Copy, PartialEq, Eq, Structural)]
pub enum WaitStep {
    /// It has ended.
    Done,
    /// It has run too long.
    Kill,
    /// It is asked again after a while.
    Wait,
}

/// What to do with a command that has run for `elapsed_ms` milliseconds.
pub fn wait_step(ended: bool, elapsed_ms: u128, timeout_secs: u64) -> (r: WaitStep)
    ensures
        r == (if ended {
            WaitStep::Done
        } else if elapsed_ms >= timeout_of(timeout_secs) * 1000 {
            WaitStep::Kill
        } else {
            WaitStep::Wait
        }),
{
    if ended {
        return WaitStep::Done;
    }
    let limit: u64 = if timeout_secs == 0 {
        1
    } else {
        timeout_secs
    };
    if elapsed_ms >= limit as u128 * 1000 {
        WaitStep::Kill
    } else {
        WaitStep::Wait
    }
}

/// The message about a command that has run too long.
pub fn timeout_message(timeout_secs: u64) -> (r: String)
    ensures
        r@ == "child process timed out after "@ + text::decimal(timeout_of(timeout_secs) as nat)
            + "s"@,
{
    let mut out = copy_text("child process timed out after ");
    let limit: u64 = if timeout_secs == 0 {
        1
    } else {
        timeout_secs
    };
    let n = text::decimal_text(limit as u128);
    out.append(n.as_str());
    out.append("s");
    out
}

// ---------------------------------------------------------------------------
// Style sheets.

/// Why a style sheet could not be processed.
#[derive(Debug)]
pub enum CssFault {
    Parse(String),
    Print(String),
}

/// The message of a fault.
pub enum CssFaultView {
    Parse(Seq<char>),
    Print(Seq<char>),
}

/// What `lightningcss` makes of a style sheet with this file name: the style
/// sheet written again, minified or not, or its error.
pub uninterp spec fn printed_css(filename: Seq<char>, css: Seq<char>, minify: bool) -> Result<
    Seq<char>,
    CssFaultView,
>;

/// A minified style sheet, with faults given by their messages.
pub open spec fn css_outcome(r: Result<String, CssFault>) -> Result<Seq<char>, CssFaultView> {
    match r {
        Ok(s) => Ok(s@),
        Err(CssFault::Parse(m)) => Err(CssFaultView::Parse(m@)),
        Err(CssFault::Print(m)) => Err(CssFaultView::Print(m@)),
    }
}

/// `StyleSheet::parse` and `StyleSheet::to_css` parse a style sheet and write it
/// again, without what it does not need where it is to be minified. The result
/// is [`printed_css`]; what is left out is not said.
#[verifier::external_body]
pub(crate) fn print_css(filename: &str, css: &str, minify: bool) -> (r: Result<String, CssFault>)
    ensures
        css_outcome(r) == printed_css(filename@, css@, minify),
{
    let options = lightningcss::stylesheet::ParserOptions {
        filename: filename.to_string(),
        ..Default::default()
    };
    let printer = lightningcss::stylesheet::PrinterOptions { minify, ..Default::default() };
    let sheet = lightningcss::stylesheet::StyleSheet::parse(css, options)
        .map_err(|err| CssFault::Parse(err.to_string()))?;
    let result = sheet.to_css(printer).map_err(|err| CssFault::Print(err.to_string()))?;
    Ok(result.code)
}

/// A processed style sheet, given what became of it.
pub open spec fn css_or_message(
    source: Seq<char>,
    minified: Result<Seq<char>, CssFaultView>,
) -> Result<Seq<char>, Seq<char>> {
    match minified {
        Ok(css) => Ok(css),
        Err(CssFaultView::Parse(m)) => Err("failed to parse CSS "@ + source + ": "@ + m),
        Err(CssFaultView::Print(_)) => Err("failed to process CSS "@ + source),
    }
}

/// Computes [`css_or_message`].
pub fn finish_css(source: &str, minified: Result<String, CssFault>) -> (r: Result<String, Failure>)
    ensures
        failure::text_outcome(r) == css_or_message(source@, css_outcome(minified)),
{
    match minified {
        Ok(css) => Ok(css),
        Err(CssFault::Parse(m)) => {
            let mut out = copy_text("failed to parse CSS ");
            out.append(source);
            out.append(": ");
            out.append(m.as_str());
            Err(failure(out))
        },
        Err(CssFault::Print(_)) => Err(failure(text::concat("failed to process CSS ", source))),
    }
}

/// The style sheet at `source` without what it does not need.
pub fn optimize_css(source: &str, css: &str) -> (r: Result<String, Failure>)
    ensures
        failure::text_outcome(r) == css_or_message(source@, printed_css(source@, css@, true)),
{
    let minified = print_css(source, css, true);
    finish_css(source, minified)
}

// ---------------------------------------------------------------------------
// Tailwind.

/// The classes that the values of `class` attributes name, in order.
pub open spec fn classes_of(values: Seq<Seq<char>>) -> Seq<Seq<char>>
    decreases values.len(),
{
    if values.len() == 0 {
        Seq::empty()
    } else {
        classes_of(values.drop_last()) + text::words(values.last())
    }
}

/// Appends the classes that the attribute values name.
pub fn push_classes(out: &mut Vec<String>, values: &Vec<String>)
    ensures
        text::texts(final(out)@) == text::texts(old(out)@) + classes_of(text::texts(values@)),
{
    let ghost all = text::texts(values@);
    let ghost start = text::texts(out@);
    let mut i: usize = 0;
    assert(all.take(0) =~= Seq::empty());
    assert(start + classes_of(all.take(0)) =~= start);
    while i < values.len()
        invariant
            i <= values.len(),
            all == text::texts(values@),
            text::texts(out@) == start + classes_of(all.take(i as int)),
        decreases values.len() - i,
    {
        assert(all.take(i + 1).drop_last() =~= all.take(i as int));
        assert(all.take(i + 1).last() == values@[i as int]@);
        let mut words = text::split_words(values[i].as_str());
        let ghost before = out@;
        let ghost w = words@;
        out.append(&mut words);
        assert(text::texts(out@) =~= text::texts(before) + text::texts(w));
        assert(start + (classes_of(all.take(i as int)) + text::words(values@[i as int]@))
            =~= text::texts(out@));
        i += 1;
    }
    assert(all.take(values.len() as int) =~= all);
}

/// The classes that the files of a site use, in the order of the files.
pub open spec fn site_classes(files: Seq<Seq<char>>) -> Seq<Seq<char>>
    decreases files.len(),
{
    if files.len() == 0 {
        Seq::empty()
    } else {
        site_classes(files.drop_last()) + classes_of(
            pattern::first_groups(
                pattern::matches_of(pattern::CLASS_ATTRIBUTE@, files.last()),
            ),
        )
    }
}

/// Computes [`site_classes`].
pub fn collect_classes(files: &Vec<String>) -> (r: Vec<String>)
    ensures
        text::texts(r@) == site_classes(text::texts(files@)),
{
    let ghost all = text::texts(files@);
    let mut out: Vec<String> = Vec::new();
    let mut i: usize = 0;
    assert(all.take(0) =~= Seq::empty());
    assert(text::texts(out@) =~= Seq::empty());
    while i < files.len()
        invariant
            i <= files.len(),
            all == text::texts(files@),
            text::texts(out@) == site_classes(all.take(i as int)),
        decreases files.len() - i,
    {
        assert(all.take(i + 1).drop_last() =~= all.take(i as int));
        assert(all.take(i + 1).last() == files@[i as int]@);
        let values = pattern::captured_texts(pattern::CLASS_ATTRIBUTE, files[i].as_str());
        push_classes(&mut out, &values);
        i += 1;
    }
    assert(all.take(files.len() as int) =~= all);
    out
}

/// The style sheet that `rswind` generates for classes.
pub uninterp spec fn utility_css(classes: Seq<Seq<char>>) -> Seq<char>;

/// `rswind::create_processor` and `GeneratorProcessor::run_with` generate the
/// style sheet for a list of classes. The result is [`utility_css`]; what a
/// class stands for is not said.
#[verifier::external_body]
pub(crate) fn generate_utilities(classes: &Vec<String>) -> (r: String)
    ensures
        r@ == utility_css(text::texts(classes@)),
{
    rswind::create_processor().run_with(classes.iter())
}

/// The style sheet for the classes of a site, minified where that is asked for.
pub fn tailwind_css(config: &TailwindConfig, files: &Vec<String>) -> (r: Result<String, Failure>)
    ensures
        failure::text_outcome(r) == ({
            let css = utility_css(site_classes(text::texts(files@)));
            if config.minify {
                css_or_message(config.output_css@, printed_css(config.output_css@, css, true))
            } else {
                Ok(css)
            }
        }),
{
    let classes = collect_classes(files);
    let css = generate_utilities(&classes);
    if config.minify {
        optimize_css(config.output_css.as_str(), css.as_str())
    } else {
        Ok(css)
    }
}

// ---------------------------------------------------------------------------
// Laws.

/// A script is written to its place below the output directory; one in TypeScript
/// becomes one in JavaScript.
pub proof fn law_script_targets(
    source: Seq<char>,
    content_root: Seq<char>,
    output_root: Seq<char>,
    rel: Seq<char>,
)
    ensures
        fspath::strip_prefix(source, content_root) == Some(rel) && fspath::extension(source)
            == Some("ts"@) ==> script_target(source, content_root, output_root) == Ok::<
            Seq<char>,
            Seq<char>,
        >(fspath::with_extension(fspath::join(output_root, rel), "js"@)),
        fspath::strip_prefix(source, content_root) == Some(rel) && fspath::extension(source)
            != Some("ts"@) ==> script_target(source, content_root, output_root) == Ok::<
            Seq<char>,
            Seq<char>,
        >(fspath::join(output_root, rel)),
        fspath::strip_prefix(source, content_root) is None ==> script_target(
            source,
            content_root,
            output_root,
        ) is Err,
{
}

/// Scripts are bundled from their source to their target, and minified. Tailwind reads
/// its input and writes its output, and minifies where that is asked for.
pub proof fn law_commands(source: Seq<char>, target: Seq<char>, config: TailwindConfig)
    ensures
        bundle_args(source, target)[0] == source,
        bundle_args(source, target).contains("--bundle"@),
        bundle_args(source, target).contains("--minify"@),
        bundle_args(source, target).len() == 5,
        bundle_args(source, target).skip(3) == seq!["--outfile"@, target],
        tailwind_args(config).take(4) == seq!["-i"@, config.input_css@, "-o"@, config.output_css@],
        config.minify ==> tailwind_args(config).skip(4) == seq!["--minify"@],
        !config.minify ==> tailwind_args(config).len() == 4,
{
    let b = bundle_args(source, target);
    assert(b[1] == "--bundle"@);
    assert(b[2] == "--minify"@);
    assert(b.skip(3) =~= seq!["--outfile"@, target]);
    let t = tailwind_args(config);
    assert(t.take(4) =~= seq!["-i"@, config.input_css@, "-o"@, config.output_css@]);
    if config.minify {
        assert(t.skip(4) =~= seq!["--minify"@]);
    }
}

/// A command has the seconds that it is given, and one where it is given none.
pub proof fn law_time_limits(secs: u64)
    ensures
        timeout_of(0) == 1,
        secs > 0 ==> timeout_of(secs) == secs,
{
}

/// The classes of a site are the words of the `class` attributes of its files, in
/// order, none left out.
pub proof fn law_classes_of_a_site(files: Seq<Seq<char>>)
    ensures
        site_classes(files) == Seq::new(
            files.len(),
            |i: int|
                classes_of(
                    pattern::first_groups(
                        pattern::matches_of(pattern::CLASS_ATTRIBUTE@, files[i]),
                    ),
                ),
        ).flatten(),
    decreases files.len(),
{
    let parts = Seq::new(
        files.len(),
        |i: int|
            classes_of(
                pattern::first_groups(pattern::matches_of(pattern::CLASS_ATTRIBUTE@, files[i])),
            ),
    );
    parts.lemma_flatten_and_flatten_alt_are_equivalent();
    if files.len() > 0 {
        let front = files.drop_last();
        law_classes_of_a_site(front);
        let rest = Seq::new(
            front.len(),
            |i: int|
                classes_of(
                    pattern::first_groups(
                        pattern::matches_of(pattern::CLASS_ATTRIBUTE@, front[i]),
                    ),
                ),
        );
        rest.lemma_flatten_and_flatten_alt_are_equivalent();
        assert(parts.drop_last() =~= rest);
    }
}

/// The classes of several attributes are the words of each, in order.
pub proof fn law_classes(values: Seq<Seq<char>>)
    ensures
        classes_of(values) == Seq::new(values.len(), |i: int| text::words(values[i])).flatten(),
    decreases values.len(),
{
    let parts = Seq::new(values.len(), |i: int| text::words(values[i]));
    parts.lemma_flatten_and_flatten_alt_are_equivalent();
    if values.len() > 0 {
        let front = values.drop_last();
        law_classes(front);
        let rest = Seq::new(front.len(), |i: int| text::words(front[i]));
        rest.lemma_flatten_and_flatten_alt_are_equivalent();
        assert(parts.drop_last() =~= rest);
    }
}

/// A style sheet that can be minified is what comes out, unchanged; one that cannot be
/// is an error that names it.
pub proof fn law_css(source: Seq<char>, css: Seq<char>, message: Seq<char>)
    ensures
        css_or_message(source, Ok(css)) == Ok::<Seq<char>, Seq<char>>(css),
        css_or_message(source, Err(CssFaultView::Parse(message))) matches Err(m) && text::starts_with(
            m,
            "failed to parse CSS "@ + source,
        ) && text::ends_with(m, message),
        css_or_message(source, Err(CssFaultView::Print(message))) matches Err(m) && text::ends_with(
            m,
            source,
        ),
{
    let head = "failed to parse CSS "@ + source;
    let m = head + ": "@ + message;
    assert(m.take(head.len() as int) =~= head);
    assert(m.skip(m.len() - message.len()) =~= message);
    let p = "failed to process CSS "@ + source;
    assert(p.skip(p.len() - source.len()) =~= source);
}

} // verus!
