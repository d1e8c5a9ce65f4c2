//! The sprite pipeline: tag parsing, attribute normalization, identifier
//! rewriting and assembly.
pub mod sanitize;
pub mod ids;
pub mod rewriting;
pub mod parsing;
pub mod roundtrip;
pub mod normalize;
pub mod transform;
pub mod file;
pub mod registry;
pub mod cache;
pub mod steady;
pub mod watch;

use crate::error::{AppError, ErrorModel};
use crate::svg::file::{
    process_file, processed, processed_models, ProcessedFile, ProcessedModel, Warning,
};
use crate::svg::normalize::{readings, Reading};
use crate::svg::registry::{
    distinct_ids, lemma_registered_distinct, lemma_registered_ids, registered, registry_ids,
    IdRegistry,
};
use crate::svg::transform::{render_sprite, sprite, SpriteModel, SvgSprite};
use crate::text::{ends_with, from_chars, has_suffix, same_text, to_chars};
use vstd::prelude::*;
use vstd::slice::slice_subrange;

verus! {

/// One file of the input directory, with what the caller read of the numeric
/// tokens of its root tag.
#[derive(Debug)]
pub struct InputFile {
    /// The path of the file, as errors name it.
    pub path: String,
    /// The name of the file inside its directory.
    pub file_name: String,
    /// The text of the file.
    pub content: String,
    /// What the caller read of the numeric tokens.
    pub readings: Vec<Reading>,
}

/// What an input file holds, as texts.
pub struct InputModel {
    pub path: Seq<char>,
    pub file_name: Seq<char>,
    pub content: Seq<char>,
    pub readings: Seq<(Seq<char>, Option<Seq<char>>)>,
}

impl View for InputFile {
    type V = InputModel;

    open spec fn view(&self) -> InputModel {
        InputModel {
            path: self.path@,
            file_name: self.file_name@,
            content: self.content@,
            readings: readings(self.readings@),
        }
    }
}

/// What a sequence of input files holds.
pub open spec fn input_models(v: Seq<InputFile>) -> Seq<InputModel> {
    Seq::new(v.len(), |i: int| v[i]@)
}

/// Whether a file of the input directory is taken as an icon: its name ends
/// in `.svg`, and it is not the output file.
pub open spec fn candidate(file_name: Seq<char>, output_name: Seq<char>) -> bool {
    ends_with(file_name, ".svg"@) && file_name != output_name
}

/// The name of the icon of a file: the file name without its extension
/// `.svg`. The extension is taken off once; a name that does not end in
/// `.svg` stays as it is.
pub open spec fn icon_name(file_name: Seq<char>) -> Seq<char> {
    if ends_with(file_name, ".svg"@) {
        file_name.take(file_name.len() - ".svg"@.len())
    } else {
        file_name
    }
}

/// The name of a file that ends in `.svg` is the name of its icon and
/// `.svg`; so two such files with different names have icons with different
/// names.
pub proof fn lemma_icon_name(a: Seq<char>, b: Seq<char>)
    requires
        ends_with(a, ".svg"@),
        ends_with(b, ".svg"@),
    ensures
        icon_name(a) + ".svg"@ == a,
        icon_name(b) + ".svg"@ == b,
        a != b ==> icon_name(a) != icon_name(b),
{
    assert(icon_name(a) + ".svg"@ =~= a);
    assert(icon_name(b) + ".svg"@ =~= b);
}

/// Whether the file named `file_name` is taken as an icon, where the output
/// file is named `output_name`.
pub fn is_candidate(file_name: &str, output_name: &str) -> (b: bool)
    ensures
        b == candidate(file_name@, output_name@),
{
    let name = to_chars(file_name);
    let ext = to_chars(".svg");
    has_suffix(name.as_slice(), ext.as_slice()) && !same_text(file_name, output_name)
}

/// The name of the icon of the file named `file_name`: the file name without
/// its extension `.svg`.
pub fn sprite_name(file_name: &str) -> (r: String)
    ensures
        r@ == icon_name(file_name@),
{
    let name = to_chars(file_name);
    let ext = to_chars(".svg");
    let end: usize = if has_suffix(name.as_slice(), ext.as_slice()) {
        name.len() - ext.len()
    } else {
        name.len()
    };
    proof {
        assert(name@.take(name.len() as int) == name@);
    }
    from_chars(slice_subrange(name.as_slice(), 0, end))
}

/// The icons of a run so far, and the registry of their ids.
pub struct Loaded {
    pub units: Seq<ProcessedModel>,
    pub registry: Seq<(Seq<char>, Seq<char>)>,
}

/// Takes one file in: a file that is no candidate is passed over; a
/// candidate is processed, and its ids are entered in the registry.
pub open spec fn load_one(acc: Loaded, f: InputModel, output_name: Seq<char>) -> Result<
    Loaded,
    ErrorModel,
> {
    if !candidate(f.file_name, output_name) {
        Ok(acc)
    } else {
        match processed(f.path, icon_name(f.file_name), f.content, f.readings) {
            Ok(p) => match registered(acc.registry, p.child_ids, f.path) {
                Ok(registry) => Ok(Loaded { units: acc.units.push(p), registry }),
                Err(e) => Err(e),
            },
            Err(e) => Err(e),
        }
    }
}

/// Takes the files in, in order. The first file that fails decides the
/// error.
pub open spec fn loaded(files: Seq<InputModel>, output_name: Seq<char>) -> Result<
    Loaded,
    ErrorModel,
>
    decreases files.len(),
{
    if files.len() == 0 {
        Ok(Loaded { units: Seq::empty(), registry: Seq::empty() })
    } else {
        match loaded(files.drop_last(), output_name) {
            Ok(acc) => load_one(acc, files.last(), output_name),
            Err(e) => Err(e),
        }
    }
}

/// An error among the first files is the error of them all.
pub proof fn lemma_loaded_error(files: Seq<InputModel>, k: int, output_name: Seq<char>)
    requires
        0 <= k <= files.len(),
        loaded(files.take(k), output_name) is Err,
    ensures
        loaded(files, output_name) == loaded(files.take(k), output_name),
    decreases files.len() - k,
{
    if k < files.len() {
        assert(files.take(k + 1).drop_last() == files.take(k));
        lemma_loaded_error(files, k + 1, output_name);
    } else {
        assert(files.take(k) == files);
    }
}

/// The ids that the files emit, in order.
pub open spec fn emitted_ids(units: Seq<ProcessedModel>) -> Seq<Seq<char>>
    decreases units.len(),
{
    if units.len() == 0 {
        Seq::empty()
    } else {
        emitted_ids(units.drop_last()) + units.last().child_ids
    }
}

/// Over the files of a run that loads, no id is emitted twice: neither by
/// two files nor by one.
pub proof fn lemma_loaded_ids_distinct(files: Seq<InputModel>, output_name: Seq<char>)
    ensures
        loaded(files, output_name) matches Ok(l) ==> {
            &&& distinct_ids(l.registry)
            &&& registry_ids(l.registry) == emitted_ids(l.units)
            &&& forall|i: int, j: int|
                0 <= i < j < emitted_ids(l.units).len() ==> emitted_ids(l.units)[i] != emitted_ids(
                    l.units,
                )[j]
        },
    decreases files.len(),
{
    if files.len() > 0 {
        lemma_loaded_ids_distinct(files.drop_last(), output_name);
        if let Ok(acc) = loaded(files.drop_last(), output_name) {
            let f = files.last();
            if candidate(f.file_name, output_name) {
                if let Ok(p) = processed(f.path, icon_name(f.file_name), f.content, f.readings) {
                    lemma_registered_distinct(acc.registry, p.child_ids, f.path);
                    lemma_registered_ids(acc.registry, p.child_ids, f.path);
                    assert(acc.units.push(p).drop_last() == acc.units);
                }
            }
        }
    } else {
        assert(registry_ids(Seq::empty()) =~= Seq::<Seq<char>>::empty());
    }
    if let Ok(l) = loaded(files, output_name) {
        let all = emitted_ids(l.units);
        assert forall|i: int, j: int| 0 <= i < j < all.len() implies all[i] != all[j] by {
            assert(all[i] == l.registry[i].0);
            assert(all[j] == l.registry[j].0);
        }
    }
}

/// Processes the files of the input directory, in the order given, and
/// checks that no id is emitted twice over all of them. Files that are no
/// candidates are passed over. Fails with the error of the first file that
/// is refused, or whose ids collide with those of a file before it.
pub fn load_svgs(files: &[InputFile], output_name: &str) -> (r: Result<
    Vec<ProcessedFile>,
    AppError,
>)
    ensures
        match r {
            Ok(v) => loaded(input_models(files@), output_name@) matches Ok(l) && l.units
                == processed_models(v@),
            Err(e) => loaded(input_models(files@), output_name@) == Err::<Loaded, _>(e@),
        },
{
    let ghost all = input_models(files@);
    let mut units: Vec<ProcessedFile> = Vec::new();
    let mut registry = IdRegistry::new();
    let mut i: usize = 0;
    proof {
        assert(all.take(0) =~= Seq::empty());
        assert(processed_models(units@) =~= Seq::empty());
    }
    while i < files.len()
        invariant
            i <= files.len(),
            all == input_models(files@),
            registry.wf(),
            loaded(all.take(i as int), output_name@) == Ok::<_, ErrorModel>(
                Loaded { units: processed_models(units@), registry: registry@ },
            ),
        decreases files.len() - i,
    {
        let f = &files[i];
        proof {
            let now = all.take(i + 1);
            assert(now.drop_last() == all.take(i as int));
            assert(now.last() == f@);
        }
        if is_candidate(f.file_name.as_str(), output_name) {
            let name = sprite_name(f.file_name.as_str());
            let p = match process_file(
                f.path.as_str(),
                name.as_str(),
                f.content.as_str(),
                f.readings.as_slice(),
            ) {
                Ok(p) => p,
                Err(e) => {
                    proof {
                        lemma_loaded_error(all, i + 1, output_name@);
                    }
                    return Err(e);
                },
            };
            registry = match registry.register(&p.child_ids, f.path.as_str()) {
                Ok(r) => r,
                Err(e) => {
                    proof {
                        lemma_loaded_error(all, i + 1, output_name@);
                    }
                    return Err(e);
                },
            };
            proof {
                assert(processed_models(units@.push(p)) =~= processed_models(units@).push(p@));
            }
            units.push(p);
        }
        i += 1;
    }
    proof {
        assert(all.take(all.len() as int) == all);
    }
    Ok(units)
}

/// A warning, with the path of the file that it is about.
#[derive(Debug)]
pub struct FileWarning {
    pub path: String,
    pub warning: Warning,
}

impl View for FileWarning {
    type V = (Seq<char>, Warning);

    open spec fn view(&self) -> (Seq<char>, Warning) {
        (self.path@, self.warning)
    }
}

/// What a sequence of warnings holds.
pub open spec fn warning_models(v: Seq<FileWarning>) -> Seq<(Seq<char>, Warning)> {
    Seq::new(v.len(), |i: int| v[i]@)
}

/// The warnings of one file, each with the path of the file.
pub open spec fn warnings_of_file(p: ProcessedModel) -> Seq<(Seq<char>, Warning)> {
    Seq::new(p.warnings.len(), |i: int| (p.path, p.warnings[i]))
}

/// The warnings of the files, in order.
pub open spec fn warnings_of(units: Seq<ProcessedModel>) -> Seq<(Seq<char>, Warning)>
    decreases units.len(),
{
    if units.len() == 0 {
        Seq::empty()
    } else {
        warnings_of(units.drop_last()) + warnings_of_file(units.last())
    }
}

/// The icons of the files, in order.
pub open spec fn sprites_of(units: Seq<ProcessedModel>) -> Seq<SpriteModel> {
    Seq::new(units.len(), |i: int| units[i].sprite)
}

/// What a run builds: the sprite document and the warnings.
#[derive(Debug)]
pub struct Built {
    /// The sprite document.
    pub sprite: String,
    /// The warnings of all files, in order.
    pub warnings: Vec<FileWarning>,
}

/// What a run builds, as texts.
pub struct BuiltModel {
    pub sprite: Seq<char>,
    pub warnings: Seq<(Seq<char>, Warning)>,
}

impl View for Built {
    type V = BuiltModel;

    open spec fn view(&self) -> BuiltModel {
        BuiltModel { sprite: self.sprite@, warnings: warning_models(self.warnings@) }
    }
}

/// What a run over the files of `directory` builds: the sprite document of
/// the icons, in the order of the files; or the error of the first file that
/// fails; or `NoSvgFiles` where no file is a candidate.
pub open spec fn built(
    directory: Seq<char>,
    files: Seq<InputModel>,
    output_name: Seq<char>,
) -> Result<BuiltModel, ErrorModel> {
    match loaded(files, output_name) {
        Ok(l) => if l.units.len() == 0 {
            Err(ErrorModel::NoSvgFiles { path: directory })
        } else {
            Ok(BuiltModel { sprite: sprite(sprites_of(l.units)), warnings: warnings_of(l.units) })
        },
        Err(e) => Err(e),
    }
}

/// Files of which none is a candidate load to nothing.
pub proof fn lemma_no_candidates(files: Seq<InputModel>, output_name: Seq<char>)
    requires
        forall|i: int|
            0 <= i < files.len() ==> !candidate((#[trigger] files[i]).file_name, output_name),
    ensures
        loaded(files, output_name) == Ok::<_, ErrorModel>(
            Loaded { units: Seq::empty(), registry: Seq::empty() },
        ),
    decreases files.len(),
{
    if files.len() > 0 {
        let rest = files.drop_last();
        assert forall|i: int| 0 <= i < rest.len() implies !candidate(
            (#[trigger] rest[i]).file_name,
            output_name,
        ) by {
            assert(rest[i] == files[i]);
        }
        lemma_no_candidates(rest, output_name);
    }
}

/// A directory without candidates, the output file left out, gives the
/// error `NoSvgFiles` and no sprite document.
pub proof fn lemma_empty_run_fails(
    directory: Seq<char>,
    files: Seq<InputModel>,
    output_name: Seq<char>,
)
    requires
        forall|i: int|
            0 <= i < files.len() ==> !candidate((#[trigger] files[i]).file_name, output_name),
    ensures
        built(directory, files, output_name) == Err::<BuiltModel, _>(
            ErrorModel::NoSvgFiles { path: directory },
        ),
{
    lemma_no_candidates(files, output_name);
}

/// The warnings of the files, each with the path of its file.
fn collect_warnings(units: &Vec<ProcessedFile>) -> (r: Vec<FileWarning>)
    ensures
        warning_models(r@) == warnings_of(processed_models(units@)),
{
    let ghost all = processed_models(units@);
    let mut out: Vec<FileWarning> = Vec::new();
    let mut i: usize = 0;
    proof {
        assert(all.take(0) =~= Seq::empty());
        assert(warning_models(out@) =~= Seq::empty());
    }
    while i < units.len()
        invariant
            i <= units.len(),
            all == processed_models(units@),
            warning_models(out@) == warnings_of(all.take(i as int)),
        decreases units.len() - i,
    {
        let u = &units[i];
        let ghost before = warning_models(out@);
        let mut k: usize = 0;
        proof {
            let now = all.take(i + 1);
            assert(now.drop_last() == all.take(i as int));
            assert(now.last() == u@);
            assert(before + warnings_of_file(u@).take(0) =~= before);
        }
        while k < u.warnings.len()
            invariant
                k <= u.warnings.len(),
                warning_models(out@) == before + warnings_of_file(u@).take(k as int),
            decreases u.warnings.len() - k,
        {
            let w = FileWarning { path: u.path.clone(), warning: u.warnings[k] };
            proof {
                let mine = warnings_of_file(u@);
                assert(mine.take(k + 1) =~= mine.take(k as int).push(mine[k as int]));
                assert(warning_models(out@.push(w)) =~= warning_models(out@).push(w@));
                assert(before + mine.take(k as int).push(mine[k as int]) =~= (before + mine.take(
                    k as int,
                )).push(mine[k as int]));
            }
            out.push(w);
            k += 1;
        }
        proof {
            let mine = warnings_of_file(u@);
            assert(mine.take(mine.len() as int) == mine);
        }
        i += 1;
    }
    proof {
        assert(all.take(all.len() as int) == all);
    }
    out
}

/// Builds the sprite document from the files of `directory`, given in the
/// order of its listing. Files that are no candidates are passed over.
/// Fails with `NoSvgFiles`, naming `directory`, where no candidate is left,
/// and with the error of the first file that fails otherwise. Nothing is
/// written here: the caller writes the document, or does not.
pub fn process(directory: &str, files: &[InputFile], output_name: &str) -> (r: Result<
    Built,
    AppError,
>)
    ensures
        match r {
            Ok(b) => built(directory@, input_models(files@), output_name@) == Ok::<_, ErrorModel>(
                b@,
            ),
            Err(e) => built(directory@, input_models(files@), output_name@) == Err::<
                BuiltModel,
                _,
            >(e@),
        },
{
    let units = load_svgs(files, output_name)?;
    if units.len() == 0 {
        return Err(AppError::NoSvgFiles { path: directory.to_owned() });
    }
    let mut refs: Vec<&SvgSprite> = Vec::new();
    let mut i: usize = 0;
    while i < units.len()
        invariant
            i <= units.len(),
            refs@.len() == i,
            forall|k: int| 0 <= k < i ==> (#[trigger] refs@[k])@ == units@[k]@.sprite,
        decreases units.len() - i,
    {
        refs.push(&units[i].sprite);
        i += 1;
    }
    proof {
        assert(crate::svg::transform::borrowed_models(refs@) =~= sprites_of(
            processed_models(units@),
        ));
    }
    let sprite = render_sprite(&refs);
    let warnings = collect_warnings(&units);
    Ok(Built { sprite, warnings })
}

/// The options of a run.
#[derive(Clone, Copy, Debug)]
pub struct RunOpts {
    pub quiet: bool,
    pub verbose: bool,
    pub dry_run: bool,
    pub fail_on_warn: bool,
    pub debounce_ms: u64,
    pub poll: bool,
}

/// How a run that built its document ends.
#[derive(Debug)]
pub struct Conclusion {
    /// Whether the document is written.
    pub write: bool,
    /// The result of the run, once the document is written or left unwritten.
    pub result: Result<(), AppError>,
}

/// Whether the document of a run is written: in every run but a dry one.
pub open spec fn writes(opts: RunOpts) -> bool {
    !opts.dry_run
}

/// The result of a run with `warnings` warnings: they are an error where
/// warnings fail the run and there is one at least.
pub open spec fn verdict(warnings: nat, opts: RunOpts) -> Result<(), ErrorModel> {
    if opts.fail_on_warn && warnings > 0 {
        Err(ErrorModel::WarningsPresent { count: warnings })
    } else {
        Ok(())
    }
}

/// A dry run writes nothing, and ends as the same run would that is not dry.
pub proof fn lemma_dry_run_only_skips_writing(warnings: nat, opts: RunOpts)
    ensures
        !writes(RunOpts { dry_run: true, ..opts }),
        writes(RunOpts { dry_run: false, ..opts }),
        verdict(warnings, RunOpts { dry_run: true, ..opts }) == verdict(
            warnings,
            RunOpts { dry_run: false, ..opts },
        ),
{
}

/// Decides how a run that built its document with `warnings` warnings ends:
/// whether the document is written, and what the run returns after that.
pub fn conclude(warnings: usize, opts: &RunOpts) -> (c: Conclusion)
    ensures
        c.write == writes(*opts),
        match c.result {
            Ok(_) => verdict(warnings as nat, *opts) is Ok,
            Err(e) => verdict(warnings as nat, *opts) == Err::<(), _>(e@),
        },
{
    let result = if opts.fail_on_warn && warnings > 0 {
        Err(AppError::WarningsPresent { count: warnings })
    } else {
        Ok(())
    };
    Conclusion { write: !opts.dry_run, result }
}

} // verus!
