use image_grid::config::{Config, ImageConfig, Rgba};
use image_grid::error::AppError;

const SAMPLE: &str = "OUTPUT = out.png
ROWS=2
COLS = 3
HEIGHT=200
WIDTH=300
BACKGROUND_COLOR=255,0,10,128
IMAGE = 0,1,a.png
IMAGE=1,2,b.png
THREADS=4
";

#[test]
fn config_reads_sample() {
    let c = Config::new(SAMPLE).unwrap();
    assert_eq!(c.output, "out.png");
    assert_eq!((c.rows, c.cols, c.height, c.width), (2, 3, 200, 300));
    assert_eq!(c.background_color, Rgba { r: 255, g: 0, b: 10, a: 128 });
    assert_eq!(c.images.len(), 2);
    assert_eq!((c.images[0].row, c.images[0].col, c.images[0].path.as_str()), (0, 1, "a.png"));
    assert_eq!((c.images[1].row, c.images[1].col, c.images[1].path.as_str()), (1, 2, "b.png"));
    assert_eq!(c.threads, 4);
}

#[test]
fn config_keys_any_case_threads_default() {
    let c = Config::new("output=o.png\nRows=1\ncoLs=+1\nheight=1\nwidth=1\nbackground_color=1,2,3,4,5\nIMAGE=0,0,x\nrows=3").unwrap();
    assert_eq!(c.rows, 3);
    assert_eq!(c.cols, 1);
    assert_eq!(c.threads, 1);
    assert_eq!(c.background_color, Rgba { r: 1, g: 2, b: 3, a: 4 });
}

fn without(key: &str) -> String {
    SAMPLE.lines().filter(|l| !l.starts_with(key)).collect::<Vec<_>>().join("\n")
}

fn replaced(key: &str, line: &str) -> String {
    SAMPLE.lines().map(|l| if l.starts_with(key) { line } else { l }).collect::<Vec<_>>().join("\n")
}

#[test]
fn config_missing_settings() {
    assert_eq!(Config::new(&without("OUTPUT")).unwrap_err(), AppError::NeedOutputError);
    assert_eq!(Config::new(&without("ROWS")).unwrap_err(), AppError::NeedRowsError);
    assert_eq!(Config::new(&without("COLS")).unwrap_err(), AppError::NeedColsError);
    assert_eq!(Config::new(&without("HEIGHT")).unwrap_err(), AppError::NeedHeightError);
    assert_eq!(Config::new(&without("WIDTH")).unwrap_err(), AppError::NeedWidthError);
    assert_eq!(Config::new(&without("BACKGROUND")).unwrap_err(), AppError::NeedBackgroundColorError);
    assert_eq!(Config::new(&without("IMAGE")).unwrap_err(), AppError::NeedImagesError);
}

#[test]
fn config_malformed_settings() {
    assert_eq!(Config::new(&replaced("ROWS", "ROWS=two")).unwrap_err(), AppError::ParseRowsError);
    assert_eq!(Config::new(&replaced("COLS", "COLS=-1")).unwrap_err(), AppError::ParseColsError);
    assert_eq!(Config::new(&replaced("HEIGHT", "HEIGHT=4294967296")).unwrap_err(), AppError::ParseHeightError);
    assert_eq!(Config::new(&replaced("WIDTH", "WIDTH=")).unwrap_err(), AppError::ParseWidthError);
    assert_eq!(Config::new(&replaced("BACKGROUND", "BACKGROUND_COLOR=1,2,3")).unwrap_err(), AppError::ParseBackgroundColorError);
    assert_eq!(Config::new(&replaced("BACKGROUND", "BACKGROUND_COLOR=1, 2,3,4")).unwrap_err(), AppError::ParseBackgroundColorError);
    assert_eq!(Config::new(&replaced("IMAGE = 0", "IMAGE=0,1")).unwrap_err(), AppError::ParseImageError);
    assert_eq!(Config::new(&replaced("THREADS", "THREADS=256")).unwrap_err(), AppError::ParseThreadsError);
    assert_eq!(Config::new(&replaced("ROWS", "ROWS=0")).unwrap_err(), AppError::InvalidRowsColsError);
    assert_eq!(Config::new(&replaced("ROWS", "ROWS 2")).unwrap_err(), AppError::ParseLineError);
    assert_eq!(Config::new("").unwrap_err(), AppError::ParseLineError);
}

#[test]
fn config_height_at_u32_max() {
    let c = Config::new(&replaced("HEIGHT", "HEIGHT=4294967295")).unwrap();
    assert_eq!(c.height, u32::MAX);
}

#[test]
fn image_config_parses() {
    let i = ImageConfig::new("3,4,dir/pic.png,extra").unwrap();
    assert_eq!((i.row, i.col, i.path.as_str()), (3, 4, "dir/pic.png"));
    assert_eq!(ImageConfig::new("3, 4,p").unwrap_err(), AppError::ParseImageError);
    assert_eq!(ImageConfig::new("a,4,p").unwrap_err(), AppError::ParseImageError);
    assert_eq!(ImageConfig::new("1,2").unwrap_err(), AppError::ParseImageError);
}

#[test]
fn error_messages() {
    assert_eq!(AppError::NeedOutputError.message(), "Need OUTPUT in config");
    assert_eq!(AppError::ParseImageError.message(), "IMAGE needs to be in format <row,col,path_to_image>");
    assert_eq!(AppError::SaveImageError.message(), "Failed to save image");
}

fn chars(s: &str) -> Vec<char> {
    s.chars().collect()
}

#[test]
fn config_from_settings_last_wins() {
    let settings = vec![
        (chars("output"), chars("x.png")),
        (chars("rows"), chars("2")),
        (chars("cols"), chars("2")),
        (chars("height"), chars("10")),
        (chars("width"), chars("20")),
        (chars("background_color"), chars("0,0,0,0")),
        (chars("rows"), chars("5")),
        (chars("threads"), chars("3")),
    ];
    let images = vec![ImageConfig { row: 1, col: 1, path: String::from("p") }];
    let c = Config::from_settings(images, &settings).unwrap();
    assert_eq!((c.rows, c.cols, c.height, c.width, c.threads), (5, 2, 10, 20, 3));
    assert_eq!(c.output, "x.png");
    // Keys are matched as given: an upper-case key is not found.
    let upper = vec![(chars("OUTPUT"), chars("x.png"))];
    assert_eq!(Config::from_settings(Vec::new(), &upper).unwrap_err(), AppError::NeedOutputError);
}

#[test]
fn config_rejects_zero_canvas() {
    assert_eq!(Config::new(&replaced("WIDTH", "WIDTH=0")).unwrap_err(), AppError::InvalidWidthHeightError);
    assert_eq!(Config::new(&replaced("HEIGHT", "HEIGHT=0")).unwrap_err(), AppError::InvalidWidthHeightError);
    assert_eq!(AppError::InvalidWidthHeightError.message(), "WIDTH or HEIGHT cannot be lesser than 1");
}
