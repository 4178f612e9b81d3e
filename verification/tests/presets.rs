use kuvatin::presets::{
    base_preset, clamp_selection, current_job, delete_preset, format_combo_str, format_combo_to_format,
    job_for_file, png_mode_from, png_mode_to_idx, save_name, sync_controls, upsert, Controls,
    CropMode, Job, OutputFormat, PngOptimize, Preset, ResizeMode,
};

fn job() -> Job {
    Job {
        format: OutputFormat::Jpeg,
        quality: 85,
        png: PngOptimize::Lossy,
        suffix: "-small".into(),
        subfolder: true,
        resize: ResizeMode::Pixels {
            width: Some(1920),
            height: None,
            keep_aspect: true,
        },
        crop: CropMode::Other(3),
    }
}

fn preset(name: &str) -> Preset {
    Preset {
        name: name.into(),
        job: job(),
    }
}

fn names(store: &[Preset]) -> Vec<&str> {
    store.iter().map(|p| p.name.as_str()).collect()
}

#[test]
fn a_preset_round_trips_through_the_controls() {
    let c = sync_controls(&job());
    assert_eq!(
        c,
        Controls {
            format: "jpeg".into(),
            quality: 85,
            png_mode: 2,
            suffix: "-small".into(),
            save_subfolder: true,
            res_w: 1920,
            res_h: 0,
            res_lock: true,
        }
    );
    assert_eq!(current_job(&job(), &c), job());
}

#[test]
fn a_resize_the_controls_do_not_show_is_kept() {
    let mut fit = job();
    fit.resize = ResizeMode::Other(7);
    let c = sync_controls(&fit);
    assert_eq!((c.res_w, c.res_h), (0, 0));
    assert_eq!(current_job(&fit, &c), fit);
}

#[test]
fn the_controls_override_the_preset() {
    let c = Controls {
        format: "gif".into(),
        quality: 400,
        png_mode: 9,
        suffix: "x".into(),
        save_subfolder: false,
        res_w: -1,
        res_h: 100,
        res_lock: false,
    };
    let j = current_job(&job(), &c);
    assert_eq!(j.format, OutputFormat::Gif);
    assert_eq!(j.quality, 100);
    assert_eq!(j.png, PngOptimize::Off);
    assert_eq!(
        j.resize,
        ResizeMode::Pixels {
            width: None,
            height: Some(100),
            keep_aspect: false
        }
    );
    assert_eq!(j.crop, CropMode::Other(3));
    let low = Controls { quality: -5, ..c };
    assert_eq!(current_job(&job(), &low).quality, 0);
}

#[test]
fn formats_and_modes_round_trip() {
    for f in [
        OutputFormat::Png,
        OutputFormat::Jpeg,
        OutputFormat::Webp,
        OutputFormat::Bmp,
        OutputFormat::Tiff,
        OutputFormat::Gif,
    ] {
        assert_eq!(format_combo_to_format(&format_combo_str(f).to_string()), f);
    }
    assert_eq!(
        format_combo_to_format(&"nothing".to_string()),
        OutputFormat::Png
    );
    for m in [PngOptimize::Off, PngOptimize::Lossless, PngOptimize::Lossy] {
        assert_eq!(png_mode_from(png_mode_to_idx(m)), m);
    }
}

#[test]
fn a_stored_crop_overrides_the_jobs() {
    assert_eq!(job_for_file(&job(), None), job());
    assert_eq!(
        job_for_file(&job(), Some((5, 6, 7, 8))).crop,
        CropMode::Rect {
            x: 5,
            y: 6,
            width: 7,
            height: 8
        }
    );
}

#[test]
fn a_bare_save_overwrites_the_current_preset() {
    let store = vec![preset("Web"), preset("Print")];
    assert_eq!(save_name(&store, "  Mail \t", 0).as_deref(), Some("Mail"));
    assert_eq!(save_name(&store, "   ", 1).as_deref(), Some("Print"));
    assert_eq!(save_name(&store, "", -1), None);
    assert_eq!(save_name(&store, "", 2), None);
}

#[test]
fn saving_under_a_name_that_is_there_replaces_it() {
    let mut store = vec![preset("Web"), preset("Työ")];
    let mut other = job();
    other.quality = 1;
    assert_eq!(upsert(&mut store, &"TYÖ".to_string(), other), 1);
    assert_eq!(names(&store), ["Web", "Työ"]);
    assert_eq!(store[1].job.quality, 1);
    assert_eq!(upsert(&mut store, &"New".to_string(), job()), 2);
    assert_eq!(names(&store), ["Web", "Työ", "New"]);
}

#[test]
fn the_last_preset_stays() {
    let mut store = vec![preset("a"), preset("b"), preset("c")];
    assert_eq!(delete_preset(&mut store, -1), None);
    assert_eq!(delete_preset(&mut store, 0), Some(0));
    assert_eq!(names(&store), ["b", "c"]);
    assert_eq!(delete_preset(&mut store, 9), Some(0));
    assert_eq!(names(&store), ["b"]);
    assert_eq!(delete_preset(&mut store, 0), None);
    assert_eq!(clamp_selection(5, 2), 1);
    assert_eq!(clamp_selection(1, 2), 1);
    assert_eq!(clamp_selection(3, 0), 0);
}

#[test]
fn with_nothing_selected_the_first_preset_is_the_base() {
    assert_eq!(base_preset(3, -1), Some(0));
    assert_eq!(base_preset(3, 2), Some(2));
    assert_eq!(base_preset(3, 3), None);
    assert_eq!(base_preset(0, -1), None);
}
