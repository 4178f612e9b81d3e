//! Presets: the Settings controls are a view of one [`Job`]; [`sync_controls`]
//! and [`current_job`] are inverses, so a preset round-trips through the
//! controls unchanged, and "Convert" runs exactly what "Save" stores.

use crate::image_history::Crop;
use crate::order::models;
use crate::text::{lowercase, trim, trimmed};
use vstd::prelude::*;

verus! {

#[derive(Clone, Copy, PartialEq, Eq, Structural, Debug)]
pub enum OutputFormat {
    Png,
    Jpeg,
    Webp,
    Bmp,
    Tiff,
    Gif,
}

#[derive(Clone, Copy, PartialEq, Eq, Structural, Debug)]
pub enum PngOptimize {
    Off,
    Lossless,
    Lossy,
}

/// How a job resizes. A resize that the controls do not show (percent, fit) is
/// kept by the number the caller knows it by.
#[derive(Clone, Copy, PartialEq, Eq, Structural, Debug)]
pub enum ResizeMode {
    Pixels { width: Option<u32>, height: Option<u32>, keep_aspect: bool },
    Other(u64),
}

/// How a job crops. A crop that is no rectangle of pixels is kept by the number
/// the caller knows it by.
#[derive(Clone, Copy, PartialEq, Eq, Structural, Debug)]
pub enum CropMode {
    Rect { x: u32, y: u32, width: u32, height: u32 },
    Other(u64),
}

/// What happens to a file.
#[derive(PartialEq, Eq, Debug)]
pub struct Job {
    pub format: OutputFormat,
    pub quality: u8,
    pub png: PngOptimize,
    pub suffix: String,
    pub subfolder: bool,
    pub resize: ResizeMode,
    pub crop: CropMode,
}

/// What happens to a file.
#[verifier::ext_equal]
pub struct JobModel {
    pub format: OutputFormat,
    pub quality: u8,
    pub png: PngOptimize,
    pub suffix: Seq<char>,
    pub subfolder: bool,
    pub resize: ResizeMode,
    pub crop: CropMode,
}

impl View for Job {
    type V = JobModel;

    open spec fn view(&self) -> JobModel {
        JobModel {
            format: self.format,
            quality: self.quality,
            png: self.png,
            suffix: self.suffix@,
            subfolder: self.subfolder,
            resize: self.resize,
            crop: self.crop,
        }
    }
}

impl Clone for Job {
    fn clone(&self) -> (r: Job)
        ensures
            r@ == self@,
    {
        Job {
            format: self.format,
            quality: self.quality,
            png: self.png,
            suffix: self.suffix.clone(),
            subfolder: self.subfolder,
            resize: self.resize,
            crop: self.crop,
        }
    }
}

/// What the Settings controls say.
#[derive(PartialEq, Eq, Debug)]
pub struct Controls {
    pub format: String,
    pub quality: i32,
    pub png_mode: i32,
    pub suffix: String,
    pub save_subfolder: bool,
    pub res_w: i32,
    pub res_h: i32,
    pub res_lock: bool,
}

/// What the Settings controls say.
#[verifier::ext_equal]
pub struct ControlsModel {
    pub format: Seq<char>,
    pub quality: i32,
    pub png_mode: i32,
    pub suffix: Seq<char>,
    pub save_subfolder: bool,
    pub res_w: i32,
    pub res_h: i32,
    pub res_lock: bool,
}

impl View for Controls {
    type V = ControlsModel;

    open spec fn view(&self) -> ControlsModel {
        ControlsModel {
            format: self.format@,
            quality: self.quality,
            png_mode: self.png_mode,
            suffix: self.suffix@,
            save_subfolder: self.save_subfolder,
            res_w: self.res_w,
            res_h: self.res_h,
            res_lock: self.res_lock,
        }
    }
}

/// The combo index of a PNG optimization.
pub open spec fn png_index(mode: PngOptimize) -> int {
    match mode {
        PngOptimize::Off => 0,
        PngOptimize::Lossless => 1,
        PngOptimize::Lossy => 2,
    }
}

/// The PNG optimization of a combo index.
pub open spec fn png_at(index: int) -> PngOptimize {
    if index == 1 {
        PngOptimize::Lossless
    } else if index == 2 {
        PngOptimize::Lossy
    } else {
        PngOptimize::Off
    }
}

/// Map the PNG-optimization combo index to its mode.
pub fn png_mode_from(index: i32) -> (r: PngOptimize)
    ensures
        r == png_at(index as int),
{
    match index {
        1 => PngOptimize::Lossless,
        2 => PngOptimize::Lossy,
        _ => PngOptimize::Off,
    }
}

/// Map the PNG-optimization mode back to its combo index.
pub fn png_mode_to_idx(mode: PngOptimize) -> (r: i32)
    ensures
        r == png_index(mode),
{
    match mode {
        PngOptimize::Off => 0,
        PngOptimize::Lossless => 1,
        PngOptimize::Lossy => 2,
    }
}

/// The combo-box text of a format.
pub open spec fn format_text(format: OutputFormat) -> Seq<char> {
    match format {
        OutputFormat::Png => "png"@,
        OutputFormat::Jpeg => "jpeg"@,
        OutputFormat::Webp => "webp"@,
        OutputFormat::Bmp => "bmp"@,
        OutputFormat::Tiff => "tiff"@,
        OutputFormat::Gif => "gif"@,
    }
}

/// The format of a combo-box text; a text of none is PNG's.
pub open spec fn format_named(text: Seq<char>) -> OutputFormat {
    if text == "jpeg"@ {
        OutputFormat::Jpeg
    } else if text == "webp"@ {
        OutputFormat::Webp
    } else if text == "bmp"@ {
        OutputFormat::Bmp
    } else if text == "tiff"@ {
        OutputFormat::Tiff
    } else if text == "gif"@ {
        OutputFormat::Gif
    } else {
        OutputFormat::Png
    }
}

/// The combo-box text for a format.
pub fn format_combo_str(format: OutputFormat) -> (r: &'static str)
    ensures
        r@ == format_text(format),
        format is Png ==> r@ == "png"@,
        format is Jpeg ==> r@ == "jpeg"@,
        format is Webp ==> r@ == "webp"@,
        format is Bmp ==> r@ == "bmp"@,
        format is Tiff ==> r@ == "tiff"@,
        format is Gif ==> r@ == "gif"@,
{
    match format {
        OutputFormat::Png => "png",
        OutputFormat::Jpeg => "jpeg",
        OutputFormat::Webp => "webp",
        OutputFormat::Bmp => "bmp",
        OutputFormat::Tiff => "tiff",
        OutputFormat::Gif => "gif",
    }
}

/// Parse a combo-box text back into a format; unknown values fall back to PNG.
pub fn format_combo_to_format(text: &String) -> (r: OutputFormat)
    ensures
        r == format_named(text@),
        text@ == "png"@ ==> r is Png,
        r is Jpeg <==> text@ == "jpeg"@,
        r is Webp <==> text@ == "webp"@,
        r is Bmp <==> text@ == "bmp"@,
        r is Tiff <==> text@ == "tiff"@,
        r is Gif <==> text@ == "gif"@,
{
    proof {
        lemma_texts_differ();
    }

    if *text == String::from_str("jpeg") {
        OutputFormat::Jpeg
    } else if *text == String::from_str("webp") {
        OutputFormat::Webp
    } else if *text == String::from_str("bmp") {
        OutputFormat::Bmp
    } else if *text == String::from_str("tiff") {
        OutputFormat::Tiff
    } else if *text == String::from_str("gif") {
        OutputFormat::Gif
    } else {
        OutputFormat::Png
    }
}

/// A dimension as its field shows it: 0 where it is not set.
pub open spec fn field_of(dimension: Option<u32>) -> i32 {
    match dimension {
        Some(n) => if n > i32::MAX {
            i32::MAX
        } else {
            n as i32
        },
        None => 0,
    }
}

/// What the controls show of a job.
pub open spec fn controls_of(job: JobModel) -> ControlsModel {
    ControlsModel {
        format: format_text(job.format),
        quality: job.quality as i32,
        png_mode: png_index(job.png) as i32,
        suffix: job.suffix,
        save_subfolder: job.subfolder,
        res_w: match job.resize {
            ResizeMode::Pixels { width, .. } => field_of(width),
            ResizeMode::Other(_) => 0,
        },
        res_h: match job.resize {
            ResizeMode::Pixels { height, .. } => field_of(height),
            ResizeMode::Other(_) => 0,
        },
        res_lock: match job.resize {
            ResizeMode::Pixels { keep_aspect, .. } => keep_aspect,
            ResizeMode::Other(_) => true,
        },
    }
}

fn field(dimension: Option<u32>) -> (r: i32)
    ensures
        r == field_of(dimension),
{
    match dimension {
        Some(n) => if n > i32::MAX as u32 {
            i32::MAX
        } else {
            n as i32
        },
        None => 0,
    }
}

/// Mirror a job into the Settings controls — the inverse of [`current_job`],
/// so a preset round-trips through them unchanged. A pixel resize shows in the
/// resolution fields; any other resize (percent, fit) leaves them at 0, which
/// is "as the preset says".
pub fn sync_controls(job: &Job) -> (r: Controls)
    ensures
        r@ == controls_of(job@),
{
    let (w, h, lock) = match job.resize {
        ResizeMode::Pixels { width, height, keep_aspect } => (
            field(width),
            field(height),
            keep_aspect,
        ),
        ResizeMode::Other(_) => (0i32, 0i32, true),
    };
    Controls {
        format: String::from_str(format_combo_str(job.format)),
        quality: job.quality as i32,
        png_mode: png_mode_to_idx(job.png),
        suffix: job.suffix.clone(),
        save_subfolder: job.subfolder,
        res_w: w,
        res_h: h,
        res_lock: lock,
    }
}

/// A dimension from its field: a field at 0 or below leaves it unconstrained.
pub open spec fn dimension_of(field: i32) -> Option<u32> {
    if field > 0 {
        Some(field as u32)
    } else {
        None
    }
}

/// The job that the controls describe, on top of the selected preset's.
pub open spec fn job_of(base: JobModel, c: ControlsModel) -> JobModel {
    JobModel {
        format: format_named(c.format),
        quality: if c.quality < 0 {
            0
        } else if c.quality > 100 {
            100
        } else {
            c.quality as u8
        },
        png: png_at(c.png_mode as int),
        suffix: c.suffix,
        subfolder: c.save_subfolder,
        resize: if c.res_w > 0 || c.res_h > 0 {
            ResizeMode::Pixels {
                width: dimension_of(c.res_w),
                height: dimension_of(c.res_h),
                keep_aspect: c.res_lock,
            }
        } else {
            base.resize
        },
        crop: base.crop,
    }
}

/// The preset that the controls start from: the selected one, the first where
/// none is selected. None where the store has no such preset.
pub fn base_preset(count: usize, current: i32) -> (r: Option<usize>)
    ensures
        ({
            let at = if current < 0 {
                0
            } else {
                current as int
            };
            if at < count {
                r == Some(at as usize)
            } else {
                r is None
            }
        }),
{
    let at: usize = if current < 0 {
        0
    } else {
        current as usize
    };
    if at < count {
        Some(at)
    } else {
        None
    }
}

/// Build the job described by the controls: start from the selected preset's
/// job (to preserve crop and other fields), then override format, quality,
/// naming and the resolution. One recipe for "Convert" and "Save preset", so
/// what runs is exactly what gets saved.
///
/// Resolution: when either field is set (above 0) it replaces the preset's
/// resize; a 0 dimension is left unconstrained; both at 0 keep the preset's
/// resize.
pub fn current_job(base: &Job, c: &Controls) -> (r: Job)
    ensures
        r@ == job_of(base@, c@),
{
    let quality: u8 = if c.quality < 0 {
        0
    } else if c.quality > 100 {
        100
    } else {
        c.quality as u8
    };
    let resize = if c.res_w > 0 || c.res_h > 0 {
        ResizeMode::Pixels {
            width: if c.res_w > 0 {
                Some(c.res_w as u32)
            } else {
                None
            },
            height: if c.res_h > 0 {
                Some(c.res_h as u32)
            } else {
                None
            },
            keep_aspect: c.res_lock,
        }
    } else {
        base.resize
    };
    Job {
        format: format_combo_to_format(&c.format),
        quality,
        png: png_mode_from(c.png_mode),
        suffix: c.suffix.clone(),
        subfolder: c.save_subfolder,
        resize,
        crop: base.crop,
    }
}

/// The job of one file: a stored crop overrides the job's own.
pub fn job_for_file(job: &Job, crop: Option<Crop>) -> (r: Job)
    ensures
        r@ == match crop {
            Some(c) => JobModel {
                crop: CropMode::Rect { x: c.0, y: c.1, width: c.2, height: c.3 },
                ..job@
            },
            None => job@,
        },
{
    let mut j = job.clone();
    if let Some(c) = crop {
        j.crop = CropMode::Rect { x: c.0, y: c.1, width: c.2, height: c.3 };
    }
    j
}

// ---------------------------------------------------------------------------
// The store
// ---------------------------------------------------------------------------

/// A named job.
#[derive(PartialEq, Eq, Debug)]
pub struct Preset {
    pub name: String,
    pub job: Job,
}

/// A named job.
pub struct PresetModel {
    pub name: Seq<char>,
    pub job: JobModel,
}

impl View for Preset {
    type V = PresetModel;

    open spec fn view(&self) -> PresetModel {
        PresetModel { name: self.name@, job: self.job@ }
    }
}

/// The name to save under: the trimmed field, or else the selected preset's,
/// so a bare "Save" still overwrites the current one. None where there is
/// neither.
pub fn save_name(presets: &Vec<Preset>, field: &str, current: i32) -> (r: Option<String>)
    ensures
        if trimmed(field@).len() > 0 {
            r is Some && r->0@ == trimmed(field@)
        } else if 0 <= current < presets.len() {
            r is Some && r->0@ == presets[current as int]@.name
        } else {
            r is None
        },
{
    let name = trim(field);
    if !name.as_str().is_empty() {
        return Some(name);
    }
    if current >= 0 && (current as usize) < presets.len() {
        Some(presets[current as usize].name.clone())
    } else {
        None
    }
}

/// Whether two names are one but for their case.
pub open spec fn same_name(a: Seq<char>, b: Seq<char>) -> bool {
    lowercase(a) == lowercase(b)
}

/// Whether the first preset of that name is at `i`.
pub open spec fn preset_at(presets: Seq<PresetModel>, name: Seq<char>, i: int) -> bool {
    &&& 0 <= i < presets.len()
    &&& same_name(presets[i].name, name)
    &&& forall|j: int| 0 <= j < i ==> !same_name((#[trigger] presets[j]).name, name)
}

/// Whether a store has a preset of that name.
pub open spec fn has_preset(presets: Seq<PresetModel>, name: Seq<char>) -> bool {
    exists|i: int| preset_at(presets, name, i)
}

/// The store with a job saved under a name: that of the preset with the name,
/// whose spelling wins, or a new one at the end.
pub open spec fn upserted(
    presets: Seq<PresetModel>,
    name: Seq<char>,
    job: JobModel,
) -> Seq<PresetModel> {
    if has_preset(presets, name) {
        let i = choose|i: int| preset_at(presets, name, i);
        presets.update(i, PresetModel { job, ..presets[i] })
    } else {
        presets.push(PresetModel { name, job })
    }
}

proof fn lemma_one_place(presets: Seq<PresetModel>, name: Seq<char>, i: int, j: int)
    requires
        preset_at(presets, name, i),
        preset_at(presets, name, j),
    ensures
        i == j,
{
    if i < j {
        assert(!same_name(presets[i].name, name));
    }
    if j < i {
        assert(!same_name(presets[j].name, name));
    }
}

/// Save a job under a name, matching names case-insensitively so "webp" can't
/// sit next to "WebP" as a second preset (and a second menu entry); the stored
/// spelling wins. Gives the place of the preset.
pub fn upsert(presets: &mut Vec<Preset>, name: &String, job: Job) -> (at: usize)
    ensures
        models(final(presets)@) == upserted(models(old(presets)@), name@, job@),
        at < final(presets).len(),
        has_preset(models(old(presets)@), name@) ==> preset_at(
            models(old(presets)@),
            name@,
            at as int,
        ),
        !has_preset(models(old(presets)@), name@) ==> at == old(presets).len(),
{
    let ghost before = models(presets@);
    let wanted = name.as_str().to_lowercase();
    let mut i: usize = 0;
    while i < presets.len()
        invariant
            i <= presets.len(),
            before == models(presets@),
            presets@ == old(presets)@,
            wanted@ == lowercase(name@),
            forall|j: int| 0 <= j < i ==> !same_name((#[trigger] before[j]).name, name@),
        decreases presets.len() - i,
    {
        assert(before[i as int] == presets[i as int]@);
        if presets[i].name.as_str().to_lowercase() == wanted {
            let stored = presets[i].name.clone();
            let ghost j = job@;
            presets.set(i, Preset { name: stored, job });
            proof {
                assert(preset_at(before, name@, i as int));
                let k = choose|k: int| preset_at(before, name@, k);
                lemma_one_place(before, name@, i as int, k);
                assert(models(presets@) =~= upserted(before, name@, j));
            }
            return i;
        }
        i += 1;
    }
    let ghost j = job@;
    presets.push(Preset { name: name.clone(), job });
    proof {
        assert(!has_preset(before, name@));
        assert(models(presets@) =~= before.push(PresetModel { name: name@, job: j }));
    }
    i
}

/// Delete the selected preset, keeping at least one: deleting the last one
/// would leave the app with no selectable preset and no usable job. Gives the
/// preset to select; none where nothing was deleted.
pub fn delete_preset(presets: &mut Vec<Preset>, current: i32) -> (r: Option<usize>)
    ensures
        if old(presets).len() <= 1 || current < 0 {
            r is None && final(presets)@ == old(presets)@
        } else {
            let at = if current < old(presets).len() {
                current as int
            } else {
                old(presets).len() - 1
            };
            &&& final(presets)@ == old(presets)@.remove(at)
            &&& r is Some && r->0 < final(presets).len()
            &&& r == Some(
                if at < old(presets).len() - 1 {
                    at as usize
                } else {
                    (old(presets).len() - 2) as usize
                },
            )
        },
{
    let n: usize = presets.len();
    if n <= 1 || current < 0 {
        return None;
    }
    let at: usize = if (current as usize) < n {
        current as usize
    } else {
        n - 1
    };
    let _ = presets.remove(at);
    if at < n - 1 {
        Some(at)
    } else {
        Some(n - 2)
    }
}

/// The index to select in the list of names, clamped to a valid one.
pub fn clamp_selection(select: usize, count: usize) -> (r: usize)
    ensures
        r == if count == 0 {
            0
        } else if select < count {
            select as int
        } else {
            count - 1
        },
{
    if count == 0 {
        0
    } else if select < count {
        select
    } else {
        count - 1
    }
}

// ---------------------------------------------------------------------------
// Laws
// ---------------------------------------------------------------------------

/// Whether the controls can show a resize in full: both dimensions within what
/// the fields hold, and none of them set to 0 beside one that is not.
pub open spec fn shown_in_full(resize: ResizeMode) -> bool {
    match resize {
        ResizeMode::Other(_) => true,
        ResizeMode::Pixels { width, height, .. } => {
            ||| field_of(width) == 0 && field_of(height) == 0
            ||| {
                &&& width != Some(0u32)
                &&& height != Some(0u32)
                &&& width is Some ==> width->0 <= i32::MAX
                &&& height is Some ==> height->0 <= i32::MAX
            }
        },
    }
}

/// The texts of the box are six different ones.
proof fn lemma_texts_differ()
    ensures
        "png"@ != "jpeg"@ && "png"@ != "webp"@ && "png"@ != "bmp"@ && "png"@ != "tiff"@,
        "png"@ != "gif"@ && "jpeg"@ != "webp"@ && "jpeg"@ != "bmp"@ && "jpeg"@ != "tiff"@,
        "jpeg"@ != "gif"@ && "webp"@ != "bmp"@ && "webp"@ != "tiff"@ && "webp"@ != "gif"@,
        "bmp"@ != "tiff"@ && "bmp"@ != "gif"@ && "tiff"@ != "gif"@,
{
    reveal_strlit("png");
    reveal_strlit("jpeg");
    reveal_strlit("webp");
    reveal_strlit("bmp");
    reveal_strlit("tiff");
    reveal_strlit("gif");
    assert("png"@[0] == 'p' && "jpeg"@[0] == 'j' && "webp"@[0] == 'w' && "bmp"@[0] == 'b'
        && "tiff"@[0] == 't' && "gif"@[0] == 'g');
}

proof fn lemma_formats()
    ensures
        forall|f: OutputFormat| #[trigger] format_named(format_text(f)) == f,
{
    reveal_strlit("png");
    reveal_strlit("jpeg");
    reveal_strlit("webp");
    reveal_strlit("bmp");
    reveal_strlit("tiff");
    reveal_strlit("gif");
    assert("png"@.len() == 3 && "jpeg"@.len() == 4 && "webp"@.len() == 4 && "bmp"@.len() == 3
        && "tiff"@.len() == 4 && "gif"@.len() == 3);
    assert("png"@[0] == 'p' && "bmp"@[0] == 'b' && "gif"@[0] == 'g' && "jpeg"@[0] == 'j'
        && "webp"@[0] == 'w' && "tiff"@[0] == 't');
}

/// Each format's text in the box is that format's own name.
pub proof fn the_box_names_each_format(format: OutputFormat, r: &'static str)
    requires
        call_ensures(format_combo_str, (format,), r),
    ensures
        match format {
            OutputFormat::Png => r@ == "png"@,
            OutputFormat::Jpeg => r@ == "jpeg"@,
            OutputFormat::Webp => r@ == "webp"@,
            OutputFormat::Bmp => r@ == "bmp"@,
            OutputFormat::Tiff => r@ == "tiff"@,
            OutputFormat::Gif => r@ == "gif"@,
        },
{
}

/// The box reads each format's name as that format, and any other text as PNG.
pub proof fn the_box_reads_each_name(text: &String, r: OutputFormat)
    requires
        call_ensures(format_combo_to_format, (text,), r),
    ensures
        text@ == "png"@ ==> r is Png,
        text@ == "jpeg"@ ==> r is Jpeg,
        text@ == "webp"@ ==> r is Webp,
        text@ == "bmp"@ ==> r is Bmp,
        text@ == "tiff"@ ==> r is Tiff,
        text@ == "gif"@ ==> r is Gif,
        text@ != "jpeg"@ && text@ != "webp"@ && text@ != "bmp"@ && text@ != "tiff"@ && text@
            != "gif"@ ==> r is Png,
{
}

/// The box of PNG optimizations holds off, lossless and lossy in this order; an
/// index of none is off.
pub proof fn the_png_box_holds_its_modes_in_order(
    index: i32,
    mode: PngOptimize,
    read: PngOptimize,
    shown: i32,
)
    requires
        call_ensures(png_mode_from, (index,), read),
        call_ensures(png_mode_to_idx, (mode,), shown),
    ensures
        read is Lossless <==> index == 1,
        read is Lossy <==> index == 2,
        mode is Off ==> shown == 0,
        mode is Lossless ==> shown == 1,
        mode is Lossy ==> shown == 2,
{
}

/// The controls show each setting of a job in a control of its own: the quality,
/// the suffix and the subfolder as they are, a pixel resize in the resolution
/// fields, any other resize as 0 by 0 with the lock on.
pub proof fn the_controls_show_the_job(job: &Job, r: Controls)
    requires
        call_ensures(sync_controls, (job,), r),
    ensures
        r.quality == job.quality,
        r.suffix@ == job.suffix@,
        r.save_subfolder == job.subfolder,
        job.format is Jpeg ==> r.format@ == "jpeg"@,
        job.format is Webp ==> r.format@ == "webp"@,
        job.format is Png ==> r.format@ == "png"@,
        job.format is Bmp ==> r.format@ == "bmp"@,
        job.format is Tiff ==> r.format@ == "tiff"@,
        job.format is Gif ==> r.format@ == "gif"@,
        job.png is Off ==> r.png_mode == 0,
        job.png is Lossless ==> r.png_mode == 1,
        job.png is Lossy ==> r.png_mode == 2,
        job.resize is Other ==> r.res_w == 0 && r.res_h == 0 && r.res_lock,
        job.resize matches ResizeMode::Pixels { width, height, keep_aspect } ==> {
            &&& r.res_lock == keep_aspect
            &&& width is None ==> r.res_w == 0
            &&& height is None ==> r.res_h == 0
            &&& width is Some && width->0 <= i32::MAX ==> r.res_w == width->0
            &&& height is Some && height->0 <= i32::MAX ==> r.res_h == height->0
            &&& width is Some && width->0 > i32::MAX ==> r.res_w == i32::MAX
            &&& height is Some && height->0 > i32::MAX ==> r.res_h == i32::MAX
        },
{
}

/// A job takes each of its settings from its own control: the quality within 0 to
/// 100 unchanged, the suffix and the subfolder as they are. A resolution field
/// above 0 is that dimension, one at 0 or below leaves it free; where neither is
/// above 0 the preset's resize is kept. The crop is always the preset's.
pub proof fn the_job_is_what_the_controls_say(base: &Job, c: &Controls, r: Job)
    requires
        call_ensures(current_job, (base, c), r),
    ensures
        0 <= c.quality <= 100 ==> r.quality == c.quality,
        c.quality < 0 ==> r.quality == 0,
        c.quality > 100 ==> r.quality == 100,
        r.suffix@ == c.suffix@,
        r.subfolder == c.save_subfolder,
        r.crop == base.crop,
        r.format is Jpeg <==> c.format@ == "jpeg"@,
        r.format is Webp <==> c.format@ == "webp"@,
        r.format is Bmp <==> c.format@ == "bmp"@,
        r.format is Tiff <==> c.format@ == "tiff"@,
        r.format is Gif <==> c.format@ == "gif"@,
        r.png is Lossless <==> c.png_mode == 1,
        r.png is Lossy <==> c.png_mode == 2,
        c.res_w <= 0 && c.res_h <= 0 ==> r.resize == base.resize,
        c.res_w > 0 || c.res_h > 0 ==> {
            &&& r.resize is Pixels
            &&& r.resize->keep_aspect == c.res_lock
            &&& c.res_w > 0 ==> r.resize->width == Some(c.res_w as u32)
            &&& c.res_w <= 0 ==> r.resize->width is None
            &&& c.res_h > 0 ==> r.resize->height == Some(c.res_h as u32)
            &&& c.res_h <= 0 ==> r.resize->height is None
        },
{
    lemma_texts_differ();
}

/// The job of a file differs from the given one in its crop at most: there it has
/// the stored crop, side by side, where one is stored.
pub proof fn a_stored_crop_changes_the_crop_alone(job: &Job, crop: Option<Crop>, r: Job)
    requires
        call_ensures(job_for_file, (job, crop), r),
    ensures
        r.format == job.format && r.quality == job.quality && r.png == job.png,
        r.suffix@ == job.suffix@ && r.subfolder == job.subfolder && r.resize == job.resize,
        crop is None ==> r.crop == job.crop,
        crop matches Some(c) ==> r.crop == (CropMode::Rect {
            x: c.0,
            y: c.1,
            width: c.2,
            height: c.3,
        }),
{
    assert(r@.crop == r.crop);
    assert(r@.format == r.format && r@.quality == r.quality && r@.png == r.png);
    assert(r@.subfolder == r.subfolder && r@.resize == r.resize && r@.suffix == r.suffix@);
}

/// A format round-trips through its combo box.
pub proof fn a_format_round_trips(format: OutputFormat)
    ensures
        format_named(format_text(format)) == format,
{
    lemma_formats();
}

/// A PNG optimization round-trips through its combo box.
pub proof fn a_png_mode_round_trips(mode: PngOptimize)
    ensures
        png_at(png_index(mode)) == mode,
{
}

/// A preset round-trips through the controls unchanged: showing a job and
/// reading it back gives the job.
pub proof fn a_preset_round_trips_through_the_controls(job: JobModel)
    requires
        job.quality <= 100,
        shown_in_full(job.resize),
    ensures
        job_of(job, controls_of(job)) == job,
{
    lemma_formats();
    let back = job_of(job, controls_of(job));
    assert(back.format == job.format);
    assert(back.resize == job.resize);
    assert(back =~= job);
}

/// The controls round-trip through the job they describe: saving them and
/// showing what was saved gives the controls.
pub proof fn the_controls_round_trip_through_a_job(base: JobModel, c: ControlsModel)
    requires
        format_text(format_named(c.format)) == c.format,
        0 <= c.quality <= 100,
        0 <= c.png_mode <= 2,
        0 <= c.res_w,
        0 <= c.res_h,
        c.res_w > 0 || c.res_h > 0 || (base.resize is Other && c.res_lock),
    ensures
        controls_of(job_of(base, c)) == c,
{
    assert(controls_of(job_of(base, c)) =~= c);
}

/// Whether no two presets have one name but for its case.
pub open spec fn distinct_names(presets: Seq<PresetModel>) -> bool {
    forall|i: int, j: int|
        0 <= i < j < presets.len() ==> !same_name(
            (#[trigger] presets[i]).name,
            (#[trigger] presets[j]).name,
        )
}

/// Saving a preset never makes two of one name, and leaves every other preset
/// as it was.
pub proof fn saving_keeps_names_distinct(
    presets: Seq<PresetModel>,
    name: Seq<char>,
    job: JobModel,
)
    requires
        distinct_names(presets),
    ensures
        distinct_names(upserted(presets, name, job)),
        upserted(presets, name, job).len() <= presets.len() + 1,
        forall|i: int|
            0 <= i < presets.len() && !same_name((#[trigger] presets[i]).name, name) ==> upserted(
                presets,
                name,
                job,
            )[i] == presets[i],
{
    let after = upserted(presets, name, job);
    if has_preset(presets, name) {
        let k = choose|k: int| preset_at(presets, name, k);
        assert forall|i: int, j: int| 0 <= i < j < after.len() implies !same_name(
            (#[trigger] after[i]).name,
            (#[trigger] after[j]).name,
        ) by {
            assert(after[i].name == presets[i].name);
            assert(after[j].name == presets[j].name);
        }
    } else {
        assert forall|i: int| 0 <= i < presets.len() implies !same_name(
            (#[trigger] presets[i]).name,
            name,
        ) by {
            lemma_no_preset(presets, name, i);
        }
        assert forall|i: int, j: int| 0 <= i < j < after.len() implies !same_name(
            (#[trigger] after[i]).name,
            (#[trigger] after[j]).name,
        ) by {
            assert(after[i] == presets[i]);
            if j < presets.len() {
                assert(after[j] == presets[j]);
            }
        }
    }
}

/// Where no preset is the first of a name, none has it.
proof fn lemma_no_preset(presets: Seq<PresetModel>, name: Seq<char>, i: int)
    requires
        !has_preset(presets, name),
        0 <= i < presets.len(),
    ensures
        !same_name(presets[i].name, name),
    decreases i,
{
    if same_name(presets[i].name, name) {
        assert forall|j: int| 0 <= j < i implies !same_name((#[trigger] presets[j]).name, name) by {
            lemma_no_preset(presets, name, j);
        }
        assert(preset_at(presets, name, i));
    }
}

/// Saving a job leaves it in the store under the name given, or under the spelling
/// that the store had for it. Every preset of another name keeps its place, its
/// spelling and its job; where the name was there no preset is added, where it was
/// not the job comes last, under the name as given.
pub proof fn a_saved_job_is_found_under_its_name(
    presets: &mut Vec<Preset>,
    name: &String,
    job: Job,
    at: usize,
)
    requires
        call_ensures(upsert, (presets, name, job), at),
    ensures
        at < final(presets).len(),
        final(presets)[at as int].job@ == job@,
        lowercase(final(presets)[at as int].name@) == lowercase(name@),
        forall|i: int|
            0 <= i < old(presets).len() && i != at ==> (#[trigger] final(presets)[i])@ == old(presets)[i]@,
        forall|i: int|
            0 <= i < at ==> lowercase((#[trigger] old(presets)[i]).name@) != lowercase(name@),
        at < old(presets).len() ==> final(presets).len() == old(presets).len()
            && final(presets)[at as int].name@ == old(presets)[at as int].name@,
        at >= old(presets).len() ==> at == old(presets).len() && final(presets).len() == at + 1
            && final(presets)[at as int].name@ == name@,
{
    let before = models(old(presets)@);
    let after = models(final(presets)@);
    assert(before.len() == old(presets).len() && after.len() == final(presets).len());
    assert forall|i: int| 0 <= i < before.len() implies (#[trigger] before[i]) == old(presets)[i]@ by {}
    assert forall|i: int| 0 <= i < after.len() implies (#[trigger] after[i]) == final(presets)[i]@ by {}
    if has_preset(before, name@) {
        let i = choose|i: int| preset_at(before, name@, i);
        lemma_one_place(before, name@, i, at as int);
        assert forall|i: int| 0 <= i < at implies lowercase((#[trigger] old(presets)[i]).name@)
            != lowercase(name@) by {
            assert(!same_name(before[i].name, name@));
        }
    } else {
        assert forall|i: int| 0 <= i < at implies lowercase((#[trigger] old(presets)[i]).name@)
            != lowercase(name@) by {
            lemma_no_preset(before, name@, i);
        }
    }
    assert(after[at as int] == final(presets)[at as int]@);
    assert forall|i: int| 0 <= i < old(presets).len() && i != at implies (#[trigger] final(presets)[i])@ == old(presets)[i]@ by {
        assert(after[i] == before[i]);
    }
}

/// Deleting takes the selected preset out and no other, and never the last one.
/// The preset to select is the one that took its place, or the last.
pub proof fn deleting_takes_the_selected_preset(
    presets: &mut Vec<Preset>,
    current: i32,
    r: Option<usize>,
)
    requires
        call_ensures(delete_preset, (presets, current), r),
    ensures
        r is Some <==> old(presets).len() >= 2 && current >= 0,
        r is None ==> final(presets)@ == old(presets)@,
        r is Some ==> final(presets).len() == old(presets).len() - 1 && r->0 < final(presets).len(),
        r is Some ==> forall|i: int|
            0 <= i < current && i < final(presets).len() ==> (#[trigger] final(presets)[i]) == old(presets)[i],
        r is Some ==> forall|i: int|
            current <= i < final(presets).len() ==> (#[trigger] final(presets)[i]) == old(presets)[i + 1],
        r is Some && current < final(presets).len() ==> r->0 == current,
        r is Some && current >= final(presets).len() ==> r->0 == final(presets).len() - 1,
{
}

/// The controls start from the selected preset, from the first where none is
/// selected.
pub proof fn the_controls_start_from_the_selected_preset(
    count: usize,
    current: i32,
    r: Option<usize>,
)
    requires
        call_ensures(base_preset, (count, current), r),
    ensures
        0 <= current < count ==> r == Some(current as usize),
        current < 0 && count > 0 ==> r == Some(0usize),
        count == 0 || current >= count ==> r is None,
{
}

/// A name is saved under as it was typed but for the blanks around it; where
/// nothing was typed, the selected preset's name stands in.
pub proof fn a_typed_name_wins(
    presets: &Vec<Preset>,
    field: &str,
    current: i32,
    r: Option<String>,
)
    requires
        call_ensures(save_name, (presets, field, current), r),
    ensures
        trimmed(field@).len() > 0 ==> r is Some && r->0@ == trimmed(field@),
        trimmed(field@).len() == 0 && 0 <= current < presets.len() ==> r is Some && r->0@
            == presets[current as int].name@,
        trimmed(field@).len() == 0 && (current < 0 || current >= presets.len()) ==> r is None,
{
}

/// A selection within the list is kept; one past its end is the last entry.
pub proof fn a_selection_within_the_list_is_kept(select: usize, count: usize, r: usize)
    requires
        call_ensures(clamp_selection, (select, count), r),
    ensures
        select < count ==> r == select,
        0 < count <= select ==> r == count - 1,
        count == 0 ==> r == 0,
{
}

} // verus!
