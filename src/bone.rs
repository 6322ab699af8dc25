use vstd::prelude::*;
use crate::error::SkeletonError;
use crate::util::{bone_index, bone_names, first_named, same_text};

verus! {

/// How a bone takes its parent's transform.
#[derive(Clone, Copy, Debug, PartialEq, Eq, Structural)]
pub enum TransformMode {
    Normal,
    OnlyTranslation,
    NoRotationOrReflection,
    NoScaleOrReflection,
    NoScale,
}

/// The mode written `name` in a document; any other name means `Normal`.
pub open spec fn transform_mode_named(name: Seq<char>) -> TransformMode {
    if name == "onlyTranslation"@ {
        TransformMode::OnlyTranslation
    } else if name == "noRotationOrReflection"@ {
        TransformMode::NoRotationOrReflection
    } else if name == "noScaleOrReflection"@ {
        TransformMode::NoScaleOrReflection
    } else if name == "noScale"@ {
        TransformMode::NoScale
    } else {
        TransformMode::Normal
    }
}

impl TransformMode {
    /// Reads a transform mode from its document name.
    pub fn from_name(name: &str) -> (r: TransformMode)
        ensures
            r == transform_mode_named(name@),
    {
        if same_text(name, "onlyTranslation") {
            TransformMode::OnlyTranslation
        } else if same_text(name, "noRotationOrReflection") {
            TransformMode::NoRotationOrReflection
        } else if same_text(name, "noScaleOrReflection") {
            TransformMode::NoScaleOrReflection
        } else if same_text(name, "noScale") {
            TransformMode::NoScale
        } else {
            TransformMode::Normal
        }
    }
}

/// A bone as the document declares it, its setup transform already built.
pub struct BoneSetup<S> {
    pub name: String,
    /// Name of the parent bone, `None` for a root.
    pub parent: Option<String>,
    /// Setup-pose transform relative to the parent.
    pub srt: S,
    pub inherit_scale: Option<bool>,
    pub inherit_rotation: Option<bool>,
    pub transform: Option<String>,
}

/// A bone of the skeleton; `srt` is its setup-pose transform.
pub struct Bone<S> {
    pub name: String,
    /// Index of the parent bone, always smaller than the bone's own index.
    pub parent_index: Option<usize>,
    pub srt: S,
    pub inherit_scale: bool,
    pub inherit_rotation: bool,
    pub transform_mode: TransformMode,
}

/// Every parent comes before its children: the bones form a forest in
/// topological order.
pub open spec fn bones_well_formed<S>(bones: Seq<Bone<S>>) -> bool {
    forall|i: int| 0 <= i < bones.len() ==> match #[trigger] bones[i].parent_index {
        Some(p) => p < i,
        None => true,
    }
}

/// The parent of `setup` names no bone of `bones`.
pub open spec fn parent_missing<S>(setup: BoneSetup<S>, bones: Seq<Bone<S>>) -> bool {
    match setup.parent {
        Some(p) => forall|j: int| 0 <= j < bones.len() ==> #[trigger] bones[j].name@ != p@,
        None => false,
    }
}

/// `b` is the bone built from `setup` when `before` are the names of the
/// bones built before it.
pub open spec fn bone_built<S>(setup: BoneSetup<S>, before: Seq<Seq<char>>, b: Bone<S>) -> bool {
    &&& b.name == setup.name
    &&& b.srt == setup.srt
    &&& b.inherit_scale == (setup.inherit_scale matches Some(v) ==> v)
    &&& b.inherit_rotation == (setup.inherit_rotation matches Some(v) ==> v)
    &&& b.transform_mode == match setup.transform {
        Some(t) => transform_mode_named(t@),
        None => TransformMode::Normal,
    }
    &&& match setup.parent {
        None => b.parent_index is None,
        Some(p) => b.parent_index matches Some(k) && first_named(before, p@) == Some(k as int),
    }
}

impl<S> Bone<S> {
    /// Builds a bone, resolving its parent among the bones built before it.
    pub fn from_json(setup: BoneSetup<S>, bones: &[Bone<S>]) -> (r: Result<Bone<S>, SkeletonError>)
        ensures
            parent_missing(setup, bones@) <==> r is Err,
            r matches Ok(b) ==> bone_built(setup, bone_names(bones@), b),
            match r {
                Ok(b) => {
                    &&& b.name == setup.name
                    &&& b.srt == setup.srt
                    &&& b.inherit_scale == (setup.inherit_scale matches Some(v) ==> v)
                    &&& b.inherit_rotation == (setup.inherit_rotation matches Some(v) ==> v)
                    &&& b.transform_mode == match setup.transform {
                        Some(t) => transform_mode_named(t@),
                        None => TransformMode::Normal,
                    }
                    &&& match setup.parent {
                        None => b.parent_index is None,
                        Some(p) => b.parent_index matches Some(k) && k < bones@.len()
                            && bones@[k as int].name@ == p@
                            && forall|j: int| 0 <= j < k ==> #[trigger] bones@[j].name@ != p@,
                    }
                },
                Err(e) => setup.parent matches Some(p) && e matches SkeletonError::BoneNotFound(n) && n@ == p@,
            },
    {
        let parent_index = match &setup.parent {
            Some(name) => match bone_index(name.as_str(), bones) {
                Ok(i) => Some(i),
                Err(e) => return Err(e),
            },
            None => None,
        };
        let transform_mode = match &setup.transform {
            Some(t) => TransformMode::from_name(t.as_str()),
            None => TransformMode::Normal,
        };
        let inherit_scale = match setup.inherit_scale {
            Some(v) => v,
            None => true,
        };
        let inherit_rotation = match setup.inherit_rotation {
            Some(v) => v,
            None => true,
        };
        Ok(Bone {
            name: setup.name,
            parent_index,
            srt: setup.srt,
            inherit_scale,
            inherit_rotation,
            transform_mode,
        })
    }
}

} // verus!
