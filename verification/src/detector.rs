//! The five detectors by kind: their names, their metric names, and which of
//! them can review boundary candidates.
use vstd::prelude::*;
use vstd::string::StringExecFns;

use crate::model::SceneDetectError;
use crate::text::{concat, decimal, decimal_string, same_text};

verus! {

/// The kinds of detector.
#[derive(Debug, Clone, Copy, PartialEq, Eq, Structural)]
pub enum DetectorKind {
    Content,
    Adaptive,
    Threshold,
    Histogram,
    Hash,
}

/// The name under which Detection Stats record a detector.
pub open spec fn stats_name(kind: DetectorKind) -> Seq<char> {
    match kind {
        DetectorKind::Content => "content"@,
        DetectorKind::Adaptive => "adaptive"@,
        DetectorKind::Threshold => "threshold"@,
        DetectorKind::Histogram => "hist"@,
        DetectorKind::Hash => "hash"@,
    }
}

/// The name a browser configuration uses for a detector.
pub open spec fn browser_name(kind: DetectorKind) -> Seq<char> {
    match kind {
        DetectorKind::Content => "content"@,
        DetectorKind::Adaptive => "adaptive"@,
        DetectorKind::Threshold => "threshold"@,
        DetectorKind::Histogram => "histogram"@,
        DetectorKind::Hash => "hash"@,
    }
}

/// The detector a browser configuration names, if any.
pub open spec fn browser_kind(name: Seq<char>) -> Option<DetectorKind> {
    if name == "content"@ {
        Some(DetectorKind::Content)
    } else if name == "adaptive"@ {
        Some(DetectorKind::Adaptive)
    } else if name == "threshold"@ {
        Some(DetectorKind::Threshold)
    } else if name == "histogram"@ {
        Some(DetectorKind::Histogram)
    } else if name == "hash"@ {
        Some(DetectorKind::Hash)
    } else {
        None
    }
}

impl DetectorKind {
    /// The name under which Detection Stats record this detector.
    pub fn name(self) -> (name: &'static str)
        ensures
            name@ == stats_name(self),
    {
        match self {
            DetectorKind::Content => "content",
            DetectorKind::Adaptive => "adaptive",
            DetectorKind::Threshold => "threshold",
            DetectorKind::Histogram => "hist",
            DetectorKind::Hash => "hash",
        }
    }

    /// Reads the detector name of a browser configuration.
    pub fn from_browser_name(name: &str) -> (kind: Result<DetectorKind, String>)
        ensures
            match browser_kind(name@) {
                Some(k) => kind == Ok::<DetectorKind, String>(k),
                None => kind matches Err(message) && message@ == "unsupported detector: "@ + name@,
            },
    {
        if same_text(name, "content") {
            Ok(DetectorKind::Content)
        } else if same_text(name, "adaptive") {
            Ok(DetectorKind::Adaptive)
        } else if same_text(name, "threshold") {
            Ok(DetectorKind::Threshold)
        } else if same_text(name, "histogram") {
            Ok(DetectorKind::Histogram)
        } else if same_text(name, "hash") {
            Ok(DetectorKind::Hash)
        } else {
            Err(concat("unsupported detector: ", name))
        }
    }

    /// Boundary review is offered by the content and adaptive detectors only.
    pub fn review_support(self) -> (supported: Result<(), SceneDetectError>)
        ensures
            (self == DetectorKind::Content || self == DetectorKind::Adaptive) ==> supported is Ok,
            self == DetectorKind::Threshold ==> (supported matches Err(
                SceneDetectError::UnsupportedBoundaryReview(name),
            ) && name@ == "detect-threshold"@),
            self == DetectorKind::Histogram ==> (supported matches Err(
                SceneDetectError::UnsupportedBoundaryReview(name),
            ) && name@ == "detect-hist"@),
            self == DetectorKind::Hash ==> (supported matches Err(
                SceneDetectError::UnsupportedBoundaryReview(name),
            ) && name@ == "detect-hash"@),
    {
        match self {
            DetectorKind::Content | DetectorKind::Adaptive => Ok(()),
            DetectorKind::Threshold => Err(
                SceneDetectError::UnsupportedBoundaryReview(
                    <String as StringExecFns>::from_str("detect-threshold"),
                ),
            ),
            DetectorKind::Histogram => Err(
                SceneDetectError::UnsupportedBoundaryReview(
                    <String as StringExecFns>::from_str("detect-hist"),
                ),
            ),
            DetectorKind::Hash => Err(
                SceneDetectError::UnsupportedBoundaryReview(
                    <String as StringExecFns>::from_str("detect-hash"),
                ),
            ),
        }
    }
}

/// `n`, or 1 when `n` is 0.
pub open spec fn at_least_one(n: usize) -> usize {
    if n == 0 {
        1
    } else {
        n
    }
}

/// The metric a histogram detector records: `hist_diff [bins=<bins>]`.
pub open spec fn histogram_metric_text(bins: usize) -> Seq<char> {
    "hist_diff [bins="@ + decimal(at_least_one(bins) as nat) + "]"@
}

/// The metric a hash detector records: `hash_dist [size=<size> lowpass=<lowpass>]`.
pub open spec fn hash_metric_text(size: usize, lowpass: usize) -> Seq<char> {
    "hash_dist [size="@ + decimal(at_least_one(size) as nat) + " lowpass="@ + decimal(
        at_least_one(lowpass) as nat,
    ) + "]"@
}

pub fn histogram_metric_name(bins: usize) -> (name: String)
    ensures
        name@ == histogram_metric_text(bins),
{
    let bins: usize = if bins == 0 {
        1
    } else {
        bins
    };
    let digits = decimal_string(bins as u64);
    let head = concat("hist_diff [bins=", digits.as_str());
    concat(head.as_str(), "]")
}

pub fn hash_metric_name(size: usize, lowpass: usize) -> (name: String)
    ensures
        name@ == hash_metric_text(size, lowpass),
{
    let size: usize = if size == 0 {
        1
    } else {
        size
    };
    let lowpass: usize = if lowpass == 0 {
        1
    } else {
        lowpass
    };
    let size_digits = decimal_string(size as u64);
    let lowpass_digits = decimal_string(lowpass as u64);
    let a = concat("hash_dist [size=", size_digits.as_str());
    let b = concat(a.as_str(), " lowpass=");
    let c = concat(b.as_str(), lowpass_digits.as_str());
    concat(c.as_str(), "]")
}

/// The names of the metrics a detector records, in order. The histogram and
/// hash metrics carry their settings.
pub fn metric_names(kind: DetectorKind, bins: usize, size: usize, lowpass: usize) -> (names: Vec<
    String,
>)
    ensures
        kind == DetectorKind::Content ==> names@.len() == 1 && names@[0]@ == "content_val"@,
        kind == DetectorKind::Adaptive ==> names@.len() == 2 && names@[0]@ == "adaptive_ratio"@
            && names@[1]@ == "content_val"@,
        kind == DetectorKind::Threshold ==> names@.len() == 1 && names@[0]@ == "average_rgb"@,
        kind == DetectorKind::Histogram ==> names@.len() == 1 && names@[0]@
            == histogram_metric_text(bins),
        kind == DetectorKind::Hash ==> names@.len() == 1 && names@[0]@ == hash_metric_text(
            size,
            lowpass,
        ),
{
    let mut names: Vec<String> = Vec::new();
    match kind {
        DetectorKind::Content => {
            names.push(<String as StringExecFns>::from_str("content_val"));
        },
        DetectorKind::Adaptive => {
            names.push(<String as StringExecFns>::from_str("adaptive_ratio"));
            names.push(<String as StringExecFns>::from_str("content_val"));
        },
        DetectorKind::Threshold => {
            names.push(<String as StringExecFns>::from_str("average_rgb"));
        },
        DetectorKind::Histogram => {
            names.push(histogram_metric_name(bins));
        },
        DetectorKind::Hash => {
            names.push(hash_metric_name(size, lowpass));
        },
    }
    names
}

} // verus!
