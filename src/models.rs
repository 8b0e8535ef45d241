use vstd::prelude::*;
use vstd::string::StringExecFns;
use std::collections::BTreeMap;
use crate::yaml::Path;
use crate::harbor::Artifact;

verus! {

/// Text being edited over the data it was made from: the text as it was made,
/// and the text now.
#[derive(Clone, Debug)]
pub struct EditorContext<T> {
    pub orignal_data: T,
    pub orignal_text: String,
    pub text: String,
    pub always_saveable: bool,
}

impl<T> EditorContext<T> {
    /// An editor over `data` whose text, as made and now, is `text`.
    pub fn new(data: T, text: String) -> (r: Self)
        ensures
            r.orignal_data == data,
            r.orignal_text@ == text@,
            r.text@ == text@,
            !r.always_saveable,
    {
        let orignal_text = text.clone();
        EditorContext { orignal_data: data, orignal_text, text, always_saveable: false }
    }

    /// The same editor, saveable even without changes.
    pub fn always_saveable(self) -> (r: Self)
        ensures
            r.always_saveable,
            r.orignal_data == self.orignal_data,
            r.orignal_text == self.orignal_text,
            r.text == self.text,
    {
        let mut r = self;
        r.always_saveable = true;
        r
    }

    /// Drops the edits.
    pub fn reset(&mut self)
        ensures
            final(self).text@ == old(self).orignal_text@,
            final(self).orignal_text == old(self).orignal_text,
            final(self).orignal_data == old(self).orignal_data,
            final(self).always_saveable == old(self).always_saveable,
    {
        self.text = self.orignal_text.clone();
    }

    /// Whether the text differs from the text as it was made.
    pub fn has_changes(&self) -> (r: bool)
        ensures
            r == (self.text@ != self.orignal_text@),
    {
        self.text != self.orignal_text
    }

    /// The data that `parse` reads from the current text.
    pub fn get_changed_data<F: Fn(&String) -> Result<T, String>>(&self, parse: F) -> (r: Result<T, String>)
        requires
            parse.requires((&self.text,)),
        ensures
            parse.ensures((&self.text,), r),
    {
        parse(&self.text)
    }
}

#[derive(Clone, Debug)]
pub struct DeploymentContent {
    pub raw: String,
    pub secrets: Vec<Secret>,
    pub images: Vec<Image>,
}

#[derive(Clone, Debug)]
pub struct Secret {
    pub source_path: Path,
    pub vault_name: String,
    pub secrets: EditorContext<BTreeMap<String, String>>,
}

#[derive(Clone, Debug)]
pub struct EnvVar {
    pub source_path: Path,
    pub name: String,
    pub value: String,
}

#[derive(Clone, Debug)]
pub struct Image {
    pub source_path: Path,
    pub artifact: Artifact,
    pub artifacts: Vec<Artifact>,
    pub identifier: ArtifactIdentifier,
    pub envs: Vec<EnvVar>,
    pub envs_json: Option<EditorContext<BTreeMap<String, String>>>,
}

/// Where an image lives in a registry.
#[derive(Clone, Debug)]
pub struct ArtifactIdentifier {
    pub domain: String,
    pub project: String,
    pub path: String,
    pub tag: String,
}

impl ArtifactIdentifier {
    /// The image reference `domain/project/path:tag`, with the given tag.
    pub fn to_string_with_tag(&self, tag: &str) -> (r: String)
        ensures
            r@ == self.domain@ + "/"@ + self.project@ + "/"@ + self.path@ + ":"@ + tag@,
    {
        proof {
            reveal_strlit("/");
            reveal_strlit(":");
        }
        let mut r = self.domain.clone();
        r.append("/");
        r.append(self.project.as_str());
        r.append("/");
        r.append(self.path.as_str());
        r.append(":");
        r.append(tag);
        r
    }
}

/// A text that an editor shows and does not change.
#[derive(Clone, Debug)]
pub struct ReadOnlyTextBuffer {
    pub text: String,
}

} // verus!
