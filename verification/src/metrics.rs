//! Metrics: the lines that counters and histograms are reported with.
use vstd::prelude::*;
use vstd::string::*;

use crate::text;
use crate::text::copy_text;

verus! {

/// How long a build took.
pub const BUILD_DURATION_MS: &'static str = "nanoss_build_duration_ms";

/// How long a page took.
pub const PAGE_RENDER_DURATION_MS: &'static str = "nanoss_page_render_duration_ms";

/// How many pages were rendered.
pub const PAGES_RENDERED_TOTAL: &'static str = "nanoss_pages_rendered_total";

/// How many pages were skipped.
pub const PAGES_SKIPPED_TOTAL: &'static str = "nanoss_pages_skipped_total";

/// How many assets were processed.
pub const ASSETS_PROCESSED_TOTAL: &'static str = "nanoss_assets_processed_total";

/// A collector that reports nothing.
#[derive(Debug, Clone, Copy)]
pub struct NoOpMetricsCollector;

impl Default for NoOpMetricsCollector {
    fn default() -> (r: Self) {
        NoOpMetricsCollector
    }
}

/// A collector that reports one line for each metric.
#[derive(Debug, Clone, Copy)]
pub struct StdoutMetricsCollector;

impl Default for StdoutMetricsCollector {
    fn default() -> (r: Self) {
        StdoutMetricsCollector
    }
}

/// `s` with its backslashes, quotes and line breaks escaped.
pub open spec fn escaped_json(s: Seq<char>) -> Seq<char> {
    text::replace_char(
        text::replace_char(text::replace_char(s, '\\', "\\\\"@), '"', "\\\""@),
        '\n',
        "\\n"@,
    )
}

/// Computes [`escaped_json`].
pub fn escape_json(value: &str) -> (r: String)
    ensures
        r@ == escaped_json(value@),
{
    let a = text::replaced_char(value, '\\', "\\\\");
    let b = text::replaced_char(a.as_str(), '"', "\\\"");
    text::replaced_char(b.as_str(), '\n', "\\n")
}

/// One label.
pub open spec fn label_text(key: Seq<char>, value: Seq<char>) -> Seq<char> {
    seq!['"'] + escaped_json(key) + "\":\""@ + escaped_json(value) + seq!['"']
}

/// The labels with commas between them.
pub open spec fn label_list(labels: Seq<(&str, &str)>) -> Seq<char>
    decreases labels.len(),
{
    if labels.len() == 0 {
        Seq::empty()
    } else {
        label_list(labels.drop_last()) + (if labels.len() > 1 {
            seq![',']
        } else {
            Seq::empty()
        }) + label_text(labels.last().0@, labels.last().1@)
    }
}

/// The labels as a JSON object.
pub open spec fn labels_json(labels: Seq<(&str, &str)>) -> Seq<char> {
    seq!['{'] + label_list(labels) + seq!['}']
}

/// Computes [`labels_json`].
pub fn labels_to_json(labels: &[(&str, &str)]) -> (r: String)
    ensures
        r@ == labels_json(labels@),
{
    let mut out = String::new();
    out.push('{');
    let mut i: usize = 0;
    assert(labels@.take(0) =~= Seq::empty());
    assert(out@ =~= seq!['{'] + label_list(labels@.take(0)));
    while i < labels.len()
        invariant
            i <= labels.len(),
            out@ == seq!['{'] + label_list(labels@.take(i as int)),
        decreases labels.len() - i,
    {
        assert(labels@.take(i + 1).drop_last() =~= labels@.take(i as int));
        let (key, value) = labels[i];
        if i > 0 {
            out.push(',');
        }
        out.push('"');
        let k = escape_json(key);
        out.append(k.as_str());
        out.append("\":\"");
        let v = escape_json(value);
        out.append(v.as_str());
        out.push('"');
        assert(out@ =~= seq!['{'] + label_list(labels@.take(i + 1)));
        i += 1;
    }
    assert(labels@.take(labels.len() as int) =~= labels@);
    out.push('}');
    assert(out@ =~= labels_json(labels@));
    out
}

impl StdoutMetricsCollector {
    /// The line that a counter is reported with.
    pub fn counter_line(&self, name: &str, labels: &[(&str, &str)]) -> (r: String)
        ensures
            r@ == "{\"metric_type\":\"counter\",\"name\":\""@ + name@ + "\",\"labels\":"@
                + labels_json(labels@) + "}"@,
    {
        let mut out = copy_text("{\"metric_type\":\"counter\",\"name\":\"");
        out.append(name);
        out.append("\",\"labels\":");
        let l = labels_to_json(labels);
        out.append(l.as_str());
        out.append("}");
        out
    }

    /// The line that a histogram is reported with; `value` is the text of its
    /// value.
    pub fn histogram_line(&self, name: &str, value: &str, labels: &[(&str, &str)]) -> (r: String)
        ensures
            r@ == "{\"metric_type\":\"histogram\",\"name\":\""@ + name@ + "\",\"value\":"@ + value@
                + ",\"labels\":"@ + labels_json(labels@) + "}"@,
    {
        let mut out = copy_text("{\"metric_type\":\"histogram\",\"name\":\"");
        out.append(name);
        out.append("\",\"value\":");
        out.append(value);
        out.append(",\"labels\":");
        let l = labels_to_json(labels);
        out.append(l.as_str());
        out.append("}");
        out
    }
}

// ---------------------------------------------------------------------------
// Laws.

/// Labels are escaped with a backslash before each quote and each backslash, and `\n` for
/// a line break; nothing else changes.
pub proof fn law_labels_are_escaped(s: Seq<char>)
    ensures
        escaped_json(s) == Seq::new(
            s.len(),
            |i: int|
                if s[i] == '"' {
                    seq!['\\', '"']
                } else if s[i] == '\\' {
                    seq!['\\', '\\']
                } else if s[i] == '\n' {
                    seq!['\\', 'n']
                } else {
                    seq![s[i]]
                },
        ).flatten(),
    decreases s.len(),
{
    let all = Seq::new(
        s.len(),
        |i: int|
            if s[i] == '"' {
                seq!['\\', '"']
            } else if s[i] == '\\' {
                seq!['\\', '\\']
            } else if s[i] == '\n' {
                seq!['\\', 'n']
            } else {
                seq![s[i]]
            },
    );
    all.lemma_flatten_and_flatten_alt_are_equivalent();
    if s.len() > 0 {
        let front = s.drop_last();
        law_labels_are_escaped(front);
        let rest = Seq::new(
            front.len(),
            |i: int|
                if front[i] == '"' {
                    seq!['\\', '"']
                } else if front[i] == '\\' {
                    seq!['\\', '\\']
                } else if front[i] == '\n' {
                    seq!['\\', 'n']
                } else {
                    seq![front[i]]
                },
        );
        rest.lemma_flatten_and_flatten_alt_are_equivalent();
        assert(all.drop_last() =~= rest);
        let c = seq![s.last()];
        assert(front + c =~= s);
        let slash = "\\\\"@;
        let quote = "\\\""@;
        let line = "\\n"@;
        text::lemma_replace_char_append(front, c, '\\', slash);
        let a = text::replace_char(front, '\\', slash);
        let c1 = text::replace_char(c, '\\', slash);
        text::lemma_replace_char_append(a, c1, '"', quote);
        let b = text::replace_char(a, '"', quote);
        let c2 = text::replace_char(c1, '"', quote);
        text::lemma_replace_char_append(b, c2, '\n', line);
        lemma_escaped_one(s.last());
        assert(all.last() == escaped_json(c));
    } else {
        assert(escaped_json(s) =~= Seq::empty());
        assert(all.flatten() =~= Seq::empty());
    }
}

proof fn lemma_replace_one(c: char, d: char, rep: Seq<char>)
    ensures
        text::replace_char(seq![c], d, rep) == (if c == d {
            rep
        } else {
            seq![c]
        }),
{
    let one = seq![c];
    assert(one.drop_last() =~= Seq::empty());
    assert(text::replace_char(one.drop_last(), d, rep) =~= Seq::empty());
    assert(text::replace_char(one, d, rep) =~= if c == d {
        rep
    } else {
        one
    });
}

proof fn lemma_escaped_one(c: char)
    ensures
        escaped_json(seq![c]) == (if c == '"' {
            seq!['\\', '"']
        } else if c == '\\' {
            seq!['\\', '\\']
        } else if c == '\n' {
            seq!['\\', 'n']
        } else {
            seq![c]
        }),
{
    reveal_strlit("\\\\");
    reveal_strlit("\\\"");
    reveal_strlit("\\n");
    let slash = "\\\\"@;
    let quote = "\\\""@;
    let line = "\\n"@;
    assert(slash =~= seq!['\\', '\\']);
    assert(quote =~= seq!['\\', '"']);
    assert(line =~= seq!['\\', 'n']);
    lemma_replace_one(c, '\\', slash);
    if c == '\\' {
        text::lemma_replace_char_none(slash, '"', quote);
        text::lemma_replace_char_none(slash, '\n', line);
    } else {
        lemma_replace_one(c, '"', quote);
        if c == '"' {
            text::lemma_replace_char_none(quote, '\n', line);
        } else {
            lemma_replace_one(c, '\n', line);
        }
    }
}

/// The labels of a metric stand in their order with commas between them, each with its
/// key and its value.
pub proof fn law_every_label_is_written(labels: Seq<(&str, &str)>)
    ensures
        labels.len() == 0 ==> labels_json(labels) == seq!['{', '}'],
        labels.len() == 1 ==> labels_json(labels) == seq!['{', '"'] + escaped_json(labels[0].0@)
            + seq!['"', ':', '"'] + escaped_json(labels[0].1@) + seq!['"', '}'],
        labels.len() > 1 ==> labels_json(labels) == labels_json(labels.drop_last()).drop_last()
            + seq![',', '"'] + escaped_json(labels.last().0@) + seq!['"', ':', '"'] + escaped_json(
            labels.last().1@,
        ) + seq!['"', '}'],
{
    reveal_strlit("\":\"");
    assert("\":\""@ =~= seq!['"', ':', '"']);
    if labels.len() == 0 {
        assert(labels_json(labels) =~= seq!['{', '}']);
    } else if labels.len() == 1 {
        assert(label_list(labels.drop_last()) =~= Seq::empty());
        assert(labels_json(labels) =~= seq!['{', '"'] + escaped_json(labels[0].0@) + seq![
            '"',
            ':',
            '"',
        ] + escaped_json(labels[0].1@) + seq!['"', '}']);
    } else {
        let front = labels_json(labels.drop_last());
        assert(front.drop_last() =~= seq!['{'] + label_list(labels.drop_last()));
        assert(labels_json(labels) =~= front.drop_last() + seq![',', '"'] + escaped_json(
            labels.last().0@,
        ) + seq!['"', ':', '"'] + escaped_json(labels.last().1@) + seq!['"', '}']);
    }
}

} // verus!
