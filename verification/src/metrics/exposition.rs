//! A metrics payload in the text exposition format, as far as it is read.
//!
//! The text is parsed by `prom_text_format_parser`; what the pipeline reads
//! of the parse is moved into the plain types of this module. A sample's
//! value stays the decimal text that the payload gave.
use vstd::prelude::*;
use crate::client::error::APIError;

verus! {

/// One label of a sample.
#[derive(Debug, PartialEq, Eq)]
pub struct Label {
    pub key: String,
    pub value: String,
}

/// One sample line: its labels, its value as written, and its timestamp in
/// milliseconds where the line carries one.
#[derive(Debug, PartialEq, Eq)]
pub struct SampleLine {
    pub labels: Vec<Label>,
    pub value: String,
    pub timestamp: Option<i64>,
}

/// The samples of one metric name.
#[derive(Debug, PartialEq, Eq)]
pub struct MetricFamily {
    pub name: String,
    pub samples: Vec<SampleLine>,
}

/// A parsed payload: its metrics, in the payload's order.
#[derive(Debug, PartialEq, Eq)]
pub struct Exposition {
    pub metrics: Vec<MetricFamily>,
}

/// What `prom_text_format_parser::Scrape::parse` makes of `text`: the
/// payload's metrics, or `None` where it reports an error.
pub uninterp spec fn exposition_of(text: Seq<char>) -> Option<Exposition>;

/// `prom_text_format_parser::Scrape::parse`, and the move of each metric's
/// name and of each sample's labels, value text and timestamp into the
/// types above. The result is a function of the text alone, so it is named:
/// [`exposition_of`]. The parser's error is handed on as it is.
#[verifier::external_body]
pub(crate) fn parse_exposition(text: &str) -> (parsed: Result<
    Exposition,
    prom_text_format_parser::ScrapeParseError,
>)
    ensures
        parsed is Ok <==> exposition_of(text@) is Some,
        parsed is Ok ==> parsed->Ok_0 == exposition_of(text@)->Some_0,
{
    let scrape = prom_text_format_parser::Scrape::parse(text)?;
    let label = |l: &prom_text_format_parser::Label| Label { key: l.key.clone(), value: l.value.clone() };
    let line = |s: prom_text_format_parser::Sample| SampleLine {
        labels: s.labels.iter().map(label).collect(),
        value: s.value.value.as_str().to_owned(),
        timestamp: s.value.timestamp,
    };
    let family = |m: prom_text_format_parser::Metric| MetricFamily { name: m.name, samples: m.samples.into_iter().map(line).collect() };
    Ok(Exposition { metrics: scrape.metrics.into_iter().map(family).collect() })
}

/// The value of the first label of `labels` with the key `key`.
pub open spec fn label_of(labels: Seq<Label>, key: Seq<char>) -> Option<String>
    decreases labels.len(),
{
    if labels.len() == 0 {
        None
    } else if labels[0].key@ == key {
        Some(labels[0].value)
    } else {
        label_of(labels.drop_first(), key)
    }
}

/// The value of the first label with the key `key`.
pub fn label_value<'a>(labels: &'a Vec<Label>, key: &str) -> (value: Option<&'a String>)
    ensures
        value is Some <==> label_of(labels@, key@) is Some,
        value is Some ==> *value->Some_0 == label_of(labels@, key@)->Some_0,
{
    let wanted = key.to_owned();
    let mut i: usize = 0;
    assert(labels@.skip(0) == labels@);
    while i < labels.len()
        invariant
            i <= labels.len(),
            wanted@ == key@,
            label_of(labels@, key@) == label_of(labels@.skip(i as int), key@),
        decreases labels.len() - i,
    {
        let ghost rest = labels@.skip(i as int);
        assert(rest.len() > 0 && rest[0] == labels@[i as int]);
        if labels[i].key == wanted {
            return Some(&labels[i].value);
        }
        assert(rest.drop_first() == labels@.skip(i + 1));
        i += 1;
    }
    assert(labels@.skip(i as int).len() == 0);
    None
}

/// The first metric of `metrics` with the name `name`.
pub open spec fn family_of(metrics: Seq<MetricFamily>, name: Seq<char>) -> Option<MetricFamily>
    decreases metrics.len(),
{
    if metrics.len() == 0 {
        None
    } else if metrics[0].name@ == name {
        Some(metrics[0])
    } else {
        family_of(metrics.drop_first(), name)
    }
}

/// The first metric with the name `name`.
pub fn find_family<'a>(metrics: &'a Vec<MetricFamily>, name: &str) -> (family: Option<
    &'a MetricFamily,
>)
    ensures
        family is Some <==> family_of(metrics@, name@) is Some,
        family is Some ==> *family->Some_0 == family_of(metrics@, name@)->Some_0,
{
    let wanted = name.to_owned();
    let mut i: usize = 0;
    assert(metrics@.skip(0) == metrics@);
    while i < metrics.len()
        invariant
            i <= metrics.len(),
            wanted@ == name@,
            family_of(metrics@, name@) == family_of(metrics@.skip(i as int), name@),
        decreases metrics.len() - i,
    {
        let ghost rest = metrics@.skip(i as int);
        assert(rest.len() > 0 && rest[0] == metrics@[i as int]);
        if metrics[i].name == wanted {
            return Some(&metrics[i]);
        }
        assert(rest.drop_first() == metrics@.skip(i + 1));
        i += 1;
    }
    assert(metrics@.skip(i as int).len() == 0);
    None
}

/// Some label of `labels` is `key="value"`.
pub open spec fn has_label(labels: Seq<Label>, key: Seq<char>, value: Seq<char>) -> bool {
    exists|i: int|
        0 <= i < labels.len() && (#[trigger] labels[i]).key@ == key && labels[i].value@ == value
}

/// Whether some label is `key="value"`.
pub fn carries_label(labels: &Vec<Label>, key: &str, value: &str) -> (found: bool)
    ensures
        found == has_label(labels@, key@, value@),
{
    let wanted_key = key.to_owned();
    let wanted_value = value.to_owned();
    let mut i: usize = 0;
    while i < labels.len()
        invariant
            i <= labels.len(),
            wanted_key@ == key@,
            wanted_value@ == value@,
            forall|j: int|
                0 <= j < i ==> !((#[trigger] labels@[j]).key@ == key@ && labels@[j].value@
                    == value@),
        decreases labels.len() - i,
    {
        if labels[i].key == wanted_key && labels[i].value == wanted_value {
            return true;
        }
        i += 1;
    }
    false
}

/// Maps the parser's error to the pipeline's.
pub fn parse(text: &str) -> (parsed: Result<Exposition, APIError>)
    ensures
        match exposition_of(text@) {
            Some(exposition) => parsed == Ok::<Exposition, APIError>(exposition),
            None => parsed is Err && parsed->Err_0 is Prometheus,
        },
{
    match parse_exposition(text) {
        Ok(exposition) => Ok(exposition),
        Err(e) => Err(APIError::Prometheus(e)),
    }
}

} // verus!
