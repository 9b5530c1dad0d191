use vstd::prelude::*;
use vstd::string::StringExecFns;

use crate::text::{decimal, push_decimal};

verus! {

/// `std::io::Error`, carried through an `AssetError` as the source of a
/// failed read.
#[verifier::external_type_specification]
#[verifier::external_body]
pub struct ExIoError(std::io::Error);

/// Errors returned by asset operations.
///
/// Every file-originated variant carries the offending `path`, so a log
/// line or a user-facing message can name the file without the caller
/// threading it through separately.
#[derive(Debug)]
#[non_exhaustive]
pub enum AssetError {
    /// The file could not be read (missing, permission denied, I/O
    /// failure mid-read); the underlying failure is kept as the source.
    Io {
        /// The path that was being read.
        path: String,
        /// The underlying operating-system failure.
        source: std::io::Error,
    },
    /// The bytes were readable but do not parse as the expected format.
    InvalidFormat {
        /// The path whose bytes failed to parse.
        path: String,
        /// What was wrong with the bytes, in one short clause.
        reason: String,
    },
    /// The file is well formed but uses a feature the loader deliberately
    /// does not implement: the loader is narrow, the file is not broken.
    UnsupportedFeature {
        /// The path whose bytes need the unimplemented feature.
        path: String,
        /// Which feature the loader declined to implement.
        feature: String,
    },
    /// Decoding would exceed the caller's stated budget.
    OverBudget {
        /// The path whose decode was refused.
        path: String,
        /// The budget that was enforced.
        limit: u64,
        /// The claimed size that exceeded it, in the same unit.
        actual: u64,
    },
    /// A path resolved outside the asset root it was meant to stay
    /// under (an absolute path, a `..` escape, a link pointing out).
    OutsideRoot {
        /// The asset root.
        root: String,
        /// The path that escaped it.
        path: String,
    },
    /// A handle referred to a slot that is empty, holds another
    /// generation, or was never allocated.
    UnknownHandle {
        /// The slot index the stale handle pointed at.
        index: u32,
        /// The generation the stale handle expected.
        generation: u64,
    },
}

impl AssetError {
    /// The `Io` error for a failed read of `path`.
    pub fn io(path: &str, source: std::io::Error) -> (e: AssetError)
        ensures
            e matches AssetError::Io { path: p, source: s } && p@ == path@ && s == source,
    {
        AssetError::Io { path: path.to_owned(), source }
    }

    /// The `InvalidFormat` error for `path`, with a short reason.
    pub fn invalid_format(path: &str, reason: &str) -> (e: AssetError)
        ensures
            e matches AssetError::InvalidFormat { path: p, reason: r } && p@ == path@ && r@ == reason@,
    {
        AssetError::InvalidFormat { path: path.to_owned(), reason: reason.to_owned() }
    }

    /// The `UnsupportedFeature` error for `path`, naming the feature.
    pub fn unsupported_feature(path: &str, feature: &str) -> (e: AssetError)
        ensures
            e matches AssetError::UnsupportedFeature { path: p, feature: f } && p@ == path@ && f@
                == feature@,
    {
        AssetError::UnsupportedFeature { path: path.to_owned(), feature: feature.to_owned() }
    }

    /// The `OverBudget` error for `path`: `actual` exceeded `limit`.
    pub fn over_budget(path: &str, limit: u64, actual: u64) -> (e: AssetError)
        ensures
            e matches AssetError::OverBudget { path: p, limit: l, actual: a } && p@ == path@ && l
                == limit && a == actual,
    {
        AssetError::OverBudget { path: path.to_owned(), limit, actual }
    }

    /// The `OutsideRoot` error for `path`, which escaped `root`.
    pub fn outside_root(root: &str, path: &str) -> (e: AssetError)
        ensures
            e matches AssetError::OutsideRoot { root: r, path: p } && r@ == root@ && p@ == path@,
    {
        AssetError::OutsideRoot { root: root.to_owned(), path: path.to_owned() }
    }

    /// The path this error is about; `None` for `UnknownHandle`, which
    /// names a store slot rather than a file.
    pub fn path(&self) -> (r: Option<&str>)
        ensures
            match self {
                AssetError::Io { path, .. } => r matches Some(p) && p@ == path@,
                AssetError::InvalidFormat { path, .. } => r matches Some(p) && p@ == path@,
                AssetError::UnsupportedFeature { path, .. } => r matches Some(p) && p@ == path@,
                AssetError::OverBudget { path, .. } => r matches Some(p) && p@ == path@,
                AssetError::OutsideRoot { path, .. } => r matches Some(p) && p@ == path@,
                AssetError::UnknownHandle { .. } => r is None,
            },
    {
        match self {
            AssetError::Io { path, .. } => Some(path.as_str()),
            AssetError::InvalidFormat { path, .. } => Some(path.as_str()),
            AssetError::UnsupportedFeature { path, .. } => Some(path.as_str()),
            AssetError::OverBudget { path, .. } => Some(path.as_str()),
            AssetError::OutsideRoot { path, .. } => Some(path.as_str()),
            AssetError::UnknownHandle { .. } => None,
        }
    }

    /// The human-readable message for this error. For `Io` it ends with
    /// the operating system's own description of the failure.
    pub fn message(&self) -> (r: String)
        ensures
            match self {
                AssetError::Io { path, .. } => exists|t: Seq<char>|
                    r@ == "cannot read asset file '"@ + path@ + "': "@ + t,
                AssetError::InvalidFormat { path, reason } => r@ == "invalid asset file '"@ + path@
                    + "': "@ + reason@,
                AssetError::UnsupportedFeature { path, feature } => r@
                    == "unsupported feature in asset file '"@ + path@ + "': "@ + feature@,
                AssetError::OverBudget { path, limit, actual } => r@ == "asset file '"@ + path@
                    + "' exceeds budget: "@ + decimal(*actual as nat) + " > limit "@ + decimal(
                    *limit as nat,
                ),
                AssetError::OutsideRoot { root, path } => r@ == "asset path '"@ + path@
                    + "' resolves outside the asset root '"@ + root@ + "'"@,
                AssetError::UnknownHandle { index, generation } => r@
                    == "unknown asset handle: index "@ + decimal(*index as nat) + ", generation "@
                    + decimal(*generation as nat),
            },
    {
        match self {
            AssetError::Io { path, source } => {
                let mut s = String::from_str("cannot read asset file '");
                s.append(path.as_str());
                s.append("': ");
                let detail = source.to_string();
                s.append(detail.as_str());
                s
            },
            AssetError::InvalidFormat { path, reason } => {
                let mut s = String::from_str("invalid asset file '");
                s.append(path.as_str());
                s.append("': ");
                s.append(reason.as_str());
                s
            },
            AssetError::UnsupportedFeature { path, feature } => {
                let mut s = String::from_str("unsupported feature in asset file '");
                s.append(path.as_str());
                s.append("': ");
                s.append(feature.as_str());
                s
            },
            AssetError::OverBudget { path, limit, actual } => {
                let mut s = String::from_str("asset file '");
                s.append(path.as_str());
                s.append("' exceeds budget: ");
                push_decimal(&mut s, *actual);
                s.append(" > limit ");
                push_decimal(&mut s, *limit);
                s
            },
            AssetError::OutsideRoot { root, path } => {
                let mut s = String::from_str("asset path '");
                s.append(path.as_str());
                s.append("' resolves outside the asset root '");
                s.append(root.as_str());
                s.append("'");
                s
            },
            AssetError::UnknownHandle { index, generation } => {
                let mut s = String::from_str("unknown asset handle: index ");
                push_decimal(&mut s, *index as u64);
                s.append(", generation ");
                push_decimal(&mut s, *generation);
                s
            },
        }
    }
}

} // verus!
