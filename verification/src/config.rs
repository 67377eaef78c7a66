//! The files that a configuration is made of.

use vstd::prelude::*;

use crate::paths::UnixPath;

verus! {

/// A file that is merged into the configuration.
#[derive(Debug)]
pub enum ConfigFile {
    /// It is merged as it stands.
    Plain(UnixPath),
    /// It is expanded first.
    Template(UnixPath),
}

/// A [`ConfigFile`] over the bytes of its path.
pub enum ConfigFileView {
    Plain(Seq<u8>),
    Template(Seq<u8>),
}

impl View for ConfigFile {
    type V = ConfigFileView;

    open spec fn view(&self) -> ConfigFileView {
        match self {
            ConfigFile::Plain(path) => ConfigFileView::Plain(path@),
            ConfigFile::Template(path) => ConfigFileView::Template(path@),
        }
    }
}

impl Clone for ConfigFile {
    fn clone(&self) -> (copy: Self)
        ensures
            copy@ == self@,
    {
        match self {
            ConfigFile::Plain(path) => ConfigFile::Plain(path.clone()),
            ConfigFile::Template(path) => ConfigFile::Template(path.clone()),
        }
    }
}

pub open spec fn files_view(files: Seq<ConfigFile>) -> Seq<ConfigFileView> {
    files.map_values(|file: ConfigFile| file@)
}

/// Where an entry of a configuration leads, where the configuration stands in `parent`.
pub open spec fn entry_path(parent: Option<Seq<u8>>, entry: Seq<u8>) -> Seq<u8> {
    match parent {
        Some(dir) => crate::paths::joined(dir, entry),
        None => entry,
    }
}

/// The files to merge, in order: the plain ones first.
pub open spec fn config_files_spec(
    parent: Option<Seq<u8>>,
    plain: Seq<Seq<u8>>,
    templates: Seq<Seq<u8>>,
) -> Seq<ConfigFileView> {
    plain.map_values(|entry: Seq<u8>| ConfigFileView::Plain(entry_path(parent, entry)))
        + templates.map_values(
        |entry: Seq<u8>| ConfigFileView::Template(entry_path(parent, entry)),
    )
}

fn find_entry(parent: &Option<UnixPath>, entry: &UnixPath) -> (path: UnixPath)
    ensures
        path@ == entry_path(crate::paths::path_view(*parent), entry@),
{
    match parent {
        Some(dir) => dir.join_path(entry),
        None => entry.clone(),
    }
}

/// The files that a configuration in the directory `parent` merges, in order: first the `plain`
/// ones, then the `templates`.
pub fn config_files(
    parent: &Option<UnixPath>,
    plain: &Vec<UnixPath>,
    templates: &Vec<UnixPath>,
) -> (files: Vec<ConfigFile>)
    ensures
        files_view(files@) == config_files_spec(
            crate::paths::path_view(*parent),
            crate::paths::paths_view(plain@),
            crate::paths::paths_view(templates@),
        ),
{
    let ghost dir = crate::paths::path_view(*parent);
    let mut files: Vec<ConfigFile> = Vec::new();
    for i in 0..plain.len()
        invariant
            dir == crate::paths::path_view(*parent),
            files@.len() == i,
            forall|k: int|
                0 <= k < i ==> (#[trigger] files@[k])@ == ConfigFileView::Plain(
                    entry_path(dir, plain@[k]@),
                ),
    {
        files.push(ConfigFile::Plain(find_entry(parent, &plain[i])));
    }
    for i in 0..templates.len()
        invariant
            dir == crate::paths::path_view(*parent),
            files@.len() == plain@.len() + i,
            forall|k: int|
                0 <= k < plain@.len() ==> (#[trigger] files@[k])@ == ConfigFileView::Plain(
                    entry_path(dir, plain@[k]@),
                ),
            forall|k: int|
                plain@.len() <= k < plain@.len() + i ==> (#[trigger] files@[k])@
                    == ConfigFileView::Template(
                    entry_path(dir, templates@[k - plain@.len()]@),
                ),
    {
        files.push(ConfigFile::Template(find_entry(parent, &templates[i])));
    }
    assert(files_view(files@) =~= config_files_spec(
        dir,
        crate::paths::paths_view(plain@),
        crate::paths::paths_view(templates@),
    ));
    files
}

/// Each entry of a configuration is merged once: the plain ones in order, and then the templates in
/// order. An entry is taken from the directory of the configuration, where it has one.
pub proof fn lemma_files_in_order(
    dir: Seq<u8>,
    plain: Seq<Seq<u8>>,
    templates: Seq<Seq<u8>>,
)
    ensures
        config_files_spec(Some(dir), plain, templates).len() == plain.len() + templates.len(),
        config_files_spec(None, plain, templates).len() == plain.len() + templates.len(),
        forall|i: int|
            #![trigger plain[i]]
            0 <= i < plain.len() ==> config_files_spec(Some(dir), plain, templates)[i]
                == ConfigFileView::Plain(crate::paths::joined(dir, plain[i])) && config_files_spec(
                None,
                plain,
                templates,
            )[i] == ConfigFileView::Plain(plain[i]),
        forall|i: int|
            #![trigger templates[i]]
            0 <= i < templates.len() ==> config_files_spec(Some(dir), plain, templates)[plain.len()
                + i] == ConfigFileView::Template(crate::paths::joined(dir, templates[i]))
                && config_files_spec(None, plain, templates)[plain.len() + i]
                == ConfigFileView::Template(templates[i]),
{
}

} // verus!
