//! Classification of scene records.
//!
//! The scene importer reads a declarative scene description and keeps the
//! records it recognises; a record with an unknown kind tag is reported and
//! skipped rather than failing the whole import. The file parsing itself
//! happens outside this library; the classification of a record's kind tag
//! is verified here.

use vstd::prelude::*;

verus! {

/// The kinds of scene record the renderer understands.
#[derive(Copy, Clone, Debug, PartialEq, Eq, Structural)]
pub enum RecordKind {
    /// A sphere primitive: center, radius and material color.
    Sphere,
    /// A point light: location, color and radiance scaling factor.
    PointLight,
    /// Anything else; the importer skips such a record with a diagnostic.
    Unknown,
}

/// Classify a scene record by its kind tag. A tag that names no known
/// record kind classifies as `Unknown`.
pub fn record_kind(kind: &str) -> (r: RecordKind)
    ensures
        r == RecordKind::Sphere <==> kind@ == "sphere"@,
        r == RecordKind::PointLight <==> kind@ == "point_light"@,
{
    proof {
        reveal_strlit("sphere");
        reveal_strlit("point_light");
        assert(("sphere"@).len() != ("point_light"@).len());
    }
    let k = kind.to_owned();
    if k == "sphere".to_owned() {
        RecordKind::Sphere
    } else if k == "point_light".to_owned() {
        RecordKind::PointLight
    } else {
        RecordKind::Unknown
    }
}

} // verus!
