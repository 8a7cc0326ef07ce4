use vstd::prelude::*;

use crate::error::AppError;
use crate::text::{
    chars_of, lower_of, lowercase, parse_decimal, parse_number, same_chars, split, split_chars,
    string_of, trim, trim_chars, views_of,
};

verus! {

/// One pixel: red, green, blue and alpha channels.
#[derive(Debug, Clone, Copy, PartialEq, Eq, Structural)]
pub struct Rgba {
    pub r: u8,
    pub g: u8,
    pub b: u8,
    pub a: u8,
}

} // verus!

verus! {

/// One placement: the source image at `path` goes to cell `(row, col)`.
#[derive(Debug, Clone)]
pub struct ImageConfig {
    pub row: usize,
    pub col: usize,
    pub path: String,
}

/// A placement as plain values: row, column and path.
pub type ImageModel = (usize, usize, Seq<char>);

impl View for ImageConfig {
    type V = ImageModel;

    open spec fn view(&self) -> ImageModel {
        (self.row, self.col, self.path@)
    }
}

/// The placement that `text` describes: `row,col,path`, the two numbers
/// written without spaces. A fourth piece and beyond are ignored.
pub open spec fn image_of(text: Seq<char>) -> Option<ImageModel> {
    let parts = split(text, ',');
    if parts.len() >= 3 && parse_number(parts[0], usize::MAX as nat) is Some && parse_number(
        parts[1],
        usize::MAX as nat,
    ) is Some {
        Some(
            (
                parse_number(parts[0], usize::MAX as nat)->0 as usize,
                parse_number(parts[1], usize::MAX as nat)->0 as usize,
                parts[2],
            ),
        )
    } else {
        None
    }
}

fn image_from_chars(text: &Vec<char>) -> (r: Result<ImageConfig, AppError>)
    ensures
        r is Ok <==> image_of(text@) is Some,
        r is Ok ==> r->Ok_0@ == image_of(text@)->0,
        r is Err ==> r->Err_0 == AppError::ParseImageError,
{
    let parts = split_chars(text, ',');
    assert(views_of(parts@).len() == parts@.len());
    if parts.len() < 3 {
        return Err(AppError::ParseImageError);
    }
    assert(parts@[0]@ == split(text@, ',')[0]);
    assert(parts@[1]@ == split(text@, ',')[1]);
    assert(parts@[2]@ == split(text@, ',')[2]);
    let row = parse_decimal(&parts[0], usize::MAX as u64);
    let col = parse_decimal(&parts[1], usize::MAX as u64);
    match (row, col) {
        (Some(row), Some(col)) => Ok(ImageConfig { row: row as usize, col: col as usize, path: string_of(&parts[2]) }),
        _ => Err(AppError::ParseImageError),
    }
}

impl ImageConfig {
    /// Reads a placement written `row,col,path`.
    pub fn new(image_str: &str) -> (r: Result<ImageConfig, AppError>)
        ensures
            r is Ok <==> image_of(image_str@) is Some,
            r is Ok ==> r->Ok_0@ == image_of(image_str@)->0,
            r is Err ==> r->Err_0 == AppError::ParseImageError,
    {
        image_from_chars(&chars_of(image_str))
    }

    /// A copy of this placement.
    pub fn duplicate(&self) -> (r: ImageConfig)
        ensures
            r == *self,
    {
        ImageConfig { row: self.row, col: self.col, path: self.path.clone() }
    }
}

/// A grid of `rows` by `cols` cells on a canvas of `width` by `height`
/// pixels, the placements, and where the result goes.
#[derive(Debug)]
pub struct Config {
    pub output: String,
    pub rows: u32,
    pub cols: u32,
    pub height: u32,
    pub width: u32,
    pub background_color: Rgba,
    pub images: Vec<ImageConfig>,
    pub threads: u8,
}

} // verus!

verus! {

/// A configuration as plain values.
pub struct ConfigModel {
    pub output: Seq<char>,
    pub rows: u32,
    pub cols: u32,
    pub height: u32,
    pub width: u32,
    pub background_color: Rgba,
    pub images: Seq<ImageModel>,
    pub threads: u8,
}

impl View for Config {
    type V = ConfigModel;

    open spec fn view(&self) -> ConfigModel {
        ConfigModel {
            output: self.output@,
            rows: self.rows,
            cols: self.cols,
            height: self.height,
            width: self.width,
            background_color: self.background_color,
            images: self.images@.map_values(|image: ImageConfig| image@),
            threads: self.threads,
        }
    }
}

/// A setting: its key, lower-cased, and its value.
pub type Setting = (Seq<char>, Seq<char>);

/// The placements and the settings that `lines` hold, in order; or the error
/// of the first line that is neither a `KEY = value` line nor a readable
/// `IMAGE = row,col,path` line. Both sides of `=` are trimmed, and a line with
/// more than one `=` keeps the text between the first two.
pub open spec fn scan(lines: Seq<Seq<char>>) -> Result<(Seq<ImageModel>, Seq<Setting>), AppError>
    decreases lines.len(),
{
    if lines.len() == 0 {
        Ok((Seq::empty(), Seq::empty()))
    } else {
        match scan(lines.drop_last()) {
            Err(e) => Err(e),
            Ok((images, settings)) => {
                let fields = split(lines.last(), '=');
                if fields.len() < 2 {
                    Err(AppError::ParseLineError)
                } else if trim(fields[0]) == "IMAGE"@ {
                    match image_of(trim(fields[1])) {
                        Some(image) => Ok((images.push(image), settings)),
                        None => Err(AppError::ParseImageError),
                    }
                } else {
                    Ok((images, settings.push((lower_of(trim(fields[0])), trim(fields[1])))))
                }
            },
        }
    }
}

/// The value of the last setting for `key`.
pub open spec fn lookup(settings: Seq<Setting>, key: Seq<char>) -> Option<Seq<char>>
    decreases settings.len(),
{
    if settings.len() == 0 {
        None
    } else if settings.last().0 == key {
        Some(settings.last().1)
    } else {
        lookup(settings.drop_last(), key)
    }
}

/// A numeric setting: `missing` when it is absent, `malformed` when it is not
/// a number up to `max`.
pub open spec fn number_setting(
    settings: Seq<Setting>,
    key: Seq<char>,
    max: nat,
    missing: AppError,
    malformed: AppError,
) -> Result<nat, AppError> {
    match lookup(settings, key) {
        None => Err(missing),
        Some(text) => match parse_number(text, max) {
            None => Err(malformed),
            Some(v) => Ok(v),
        },
    }
}

/// The colour that `text` describes: comma-separated channels from 0 to 255,
/// at least four, of which the first four are red, green, blue and alpha.
pub open spec fn color_of(text: Seq<char>) -> Option<Rgba> {
    let parts = split(text, ',');
    if parts.len() >= 4 && forall|i: int| 0 <= i < parts.len() ==> #[trigger] parse_number(parts[i], 255) is Some {
        Some(
            Rgba {
                r: parse_number(parts[0], 255)->0 as u8,
                g: parse_number(parts[1], 255)->0 as u8,
                b: parse_number(parts[2], 255)->0 as u8,
                a: parse_number(parts[3], 255)->0 as u8,
            },
        )
    } else {
        None
    }
}

/// The worker count: 1 when the setting is absent.
pub open spec fn threads_of(settings: Seq<Setting>) -> Option<u8> {
    match lookup(settings, "threads"@) {
        None => Some(1),
        Some(text) => match parse_number(text, 255) {
            None => None,
            Some(v) => Some(v as u8),
        },
    }
}

/// The configuration that placements and settings describe, or the first
/// error found. A setting is looked up by its key, a later one winning over
/// an earlier one.
pub open spec fn config_from(images: Seq<ImageModel>, settings: Seq<Setting>) -> Result<ConfigModel, AppError> {
    let output = lookup(settings, "output"@);
    let rows = number_setting(settings, "rows"@, u32::MAX as nat, AppError::NeedRowsError, AppError::ParseRowsError);
    let cols = number_setting(settings, "cols"@, u32::MAX as nat, AppError::NeedColsError, AppError::ParseColsError);
    let height = number_setting(
        settings,
        "height"@,
        u32::MAX as nat,
        AppError::NeedHeightError,
        AppError::ParseHeightError,
    );
    let width = number_setting(settings, "width"@, u32::MAX as nat, AppError::NeedWidthError, AppError::ParseWidthError);
    let color = lookup(settings, "background_color"@);
    if output is None {
        Err(AppError::NeedOutputError)
    } else if rows is Err {
        Err(rows->Err_0)
    } else if cols is Err {
        Err(cols->Err_0)
    } else if rows->Ok_0 < 1 || cols->Ok_0 < 1 {
        Err(AppError::InvalidRowsColsError)
    } else if height is Err {
        Err(height->Err_0)
    } else if width is Err {
        Err(width->Err_0)
    } else if height->Ok_0 < 1 || width->Ok_0 < 1 {
        Err(AppError::InvalidWidthHeightError)
    } else if color is None {
        Err(AppError::NeedBackgroundColorError)
    } else if color_of(color->0) is None {
        Err(AppError::ParseBackgroundColorError)
    } else if images.len() < 1 {
        Err(AppError::NeedImagesError)
    } else if threads_of(settings) is None {
        Err(AppError::ParseThreadsError)
    } else {
        Ok(
            ConfigModel {
                output: output->0,
                rows: rows->Ok_0 as u32,
                cols: cols->Ok_0 as u32,
                height: height->Ok_0 as u32,
                width: width->Ok_0 as u32,
                background_color: color_of(color->0)->0,
                images,
                threads: threads_of(settings)->0,
            },
        )
    }
}

/// The configuration that `input` describes, or the first error found. The
/// text is trimmed and cut into lines; keys are lower-cased.
pub open spec fn config_of(input: Seq<char>) -> Result<ConfigModel, AppError> {
    match scan(split(trim(input), '\n')) {
        Err(e) => Err(e),
        Ok((images, settings)) => config_from(images, settings),
    }
}

} // verus!

verus! {

/// The plain values of a list of settings.
pub open spec fn settings_view(settings: Seq<(Vec<char>, Vec<char>)>) -> Seq<Setting> {
    settings.map_values(|s: (Vec<char>, Vec<char>)| (s.0@, s.1@))
}

fn find_setting(settings: &Vec<(Vec<char>, Vec<char>)>, key: &Vec<char>) -> (r: Option<usize>)
    ensures
        r is Some <==> lookup(settings_view(settings@), key@) is Some,
        r is Some ==> r->0 < settings@.len() && settings@[r->0 as int].1@ == lookup(settings_view(settings@), key@)->0,
{
    let mut i: usize = settings.len();
    assert(settings@.subrange(0, i as int) =~= settings@);
    while i > 0
        invariant
            i <= settings@.len(),
            lookup(settings_view(settings@), key@) == lookup(settings_view(settings@.subrange(0, i as int)), key@),
        decreases i,
    {
        let ghost upto = settings_view(settings@.subrange(0, i as int));
        assert(upto.drop_last() =~= settings_view(settings@.subrange(0, i - 1)));
        if same_chars(&settings[i - 1].0, key) {
            return Some(i - 1);
        }
        i = i - 1;
    }
    None
}

fn read_number(
    settings: &Vec<(Vec<char>, Vec<char>)>,
    key: &str,
    max: u64,
    missing: AppError,
    malformed: AppError,
) -> (r: Result<u64, AppError>)
    ensures
        r is Ok <==> number_setting(settings_view(settings@), key@, max as nat, missing, malformed) is Ok,
        r is Ok ==> r->Ok_0 as nat == number_setting(settings_view(settings@), key@, max as nat, missing, malformed)->Ok_0,
        r is Err ==> r->Err_0 == number_setting(settings_view(settings@), key@, max as nat, missing, malformed)->Err_0,
{
    match find_setting(settings, &chars_of(key)) {
        None => Err(missing),
        Some(i) => match parse_decimal(&settings[i].1, max) {
            None => Err(malformed),
            Some(v) => Ok(v),
        },
    }
}

fn parse_color(text: &Vec<char>) -> (r: Option<Rgba>)
    ensures
        r == color_of(text@),
{
    let parts = split_chars(text, ',');
    let ghost pieces = split(text@, ',');
    assert(views_of(parts@).len() == parts@.len());
    let mut channels: Vec<u8> = Vec::new();
    let mut i: usize = 0;
    while i < parts.len()
        invariant
            pieces == split(text@, ','),
            views_of(parts@) == pieces,
            i <= parts@.len(),
            channels@.len() == i,
            forall|k: int| 0 <= k < i ==> #[trigger] parse_number(pieces[k], 255) == Some(channels@[k] as nat),
        decreases parts@.len() - i,
    {
        assert(parts@[i as int]@ == pieces[i as int]);
        match parse_decimal(&parts[i], 255) {
            None => {
                return None;
            },
            Some(v) => {
                channels.push(v as u8);
            },
        }
        i = i + 1;
    }
    if channels.len() < 4 {
        return None;
    }
    Some(Rgba { r: channels[0], g: channels[1], b: channels[2], a: channels[3] })
}

proof fn lemma_scan_error_stays(lines: Seq<Seq<char>>, i: int)
    requires
        0 <= i <= lines.len(),
        scan(lines.subrange(0, i)) is Err,
    ensures
        scan(lines) == scan(lines.subrange(0, i)),
    decreases lines.len(),
{
    if i == lines.len() {
        assert(lines.subrange(0, i) =~= lines);
    } else {
        assert(lines.drop_last().subrange(0, i) =~= lines.subrange(0, i));
        lemma_scan_error_stays(lines.drop_last(), i);
    }
}

impl Config {
    /// Reads a configuration: lines of `KEY = value`, keys in any case, and
    /// one `IMAGE = row,col,path` line per placement. OUTPUT, ROWS, COLS,
    /// HEIGHT, WIDTH and BACKGROUND_COLOR are needed, THREADS defaults to 1.
    pub fn new(config_str: &str) -> (r: Result<Config, AppError>)
        ensures
            r is Ok <==> config_of(config_str@) is Ok,
            r is Ok ==> r->Ok_0@ == config_of(config_str@)->Ok_0,
            r is Err ==> r->Err_0 == config_of(config_str@)->Err_0,
            r is Ok ==> r->Ok_0.rows >= 1 && r->Ok_0.cols >= 1 && r->Ok_0.width >= 1 && r->Ok_0.height >= 1,
    {
        let text = trim_chars(&chars_of(config_str));
        let lines = split_chars(&text, '\n');
        let ghost all_lines = split(trim(config_str@), '\n');
        assert(views_of(lines@).len() == lines@.len());
        let image_key = chars_of("IMAGE");
        let mut images: Vec<ImageConfig> = Vec::new();
        let mut settings: Vec<(Vec<char>, Vec<char>)> = Vec::new();
        let mut i: usize = 0;
        assert(all_lines.subrange(0, 0) =~= Seq::<Seq<char>>::empty());
        assert(images@.map_values(|image: ImageConfig| image@) =~= Seq::<ImageModel>::empty());
        assert(settings_view(settings@) =~= Seq::<Setting>::empty());
        while i < lines.len()
            invariant
                all_lines == split(trim(config_str@), '\n'),
                views_of(lines@) == all_lines,
                image_key@ == "IMAGE"@,
                i <= lines@.len(),
                scan(all_lines.subrange(0, i as int)) == Ok::<(Seq<ImageModel>, Seq<Setting>), AppError>(
                    (images@.map_values(|image: ImageConfig| image@), settings_view(settings@)),
                ),
            decreases lines@.len() - i,
        {
            let ghost upto = all_lines.subrange(0, i + 1);
            assert(upto.drop_last() =~= all_lines.subrange(0, i as int));
            assert(upto.last() == lines@[i as int]@);
            let fields = split_chars(&lines[i], '=');
            assert(views_of(fields@).len() == fields@.len());
            if fields.len() < 2 {
                proof {
                    lemma_scan_error_stays(all_lines, i + 1);
                }
                return Err(AppError::ParseLineError);
            }
            assert(fields@[0]@ == split(upto.last(), '=')[0]);
            assert(fields@[1]@ == split(upto.last(), '=')[1]);
            let key = trim_chars(&fields[0]);
            let value = trim_chars(&fields[1]);
            if same_chars(&key, &image_key) {
                match image_from_chars(&value) {
                    Ok(image) => {
                        let ghost before = images@.map_values(|image: ImageConfig| image@);
                        images.push(image);
                        assert(images@.map_values(|image: ImageConfig| image@) =~= before.push(image@));
                    },
                    Err(e) => {
                        proof {
                            lemma_scan_error_stays(all_lines, i + 1);
                        }
                        return Err(e);
                    },
                }
            } else {
                let ghost before = settings_view(settings@);
                let lowered = lowercase(&key);
                settings.push((lowered, value));
                assert(settings_view(settings@) =~= before.push((lower_of(key@), value@)));
            }
            i = i + 1;
        }
        assert(all_lines.subrange(0, i as int) =~= all_lines);
        Config::from_settings(images, &settings)
    }

    /// Builds a configuration from placements already read and from settings
    /// as `(key, value)` pairs, keys lower-cased. A later setting wins over an
    /// earlier one with the same key.
    pub fn from_settings(images: Vec<ImageConfig>, settings: &Vec<(Vec<char>, Vec<char>)>) -> (r: Result<Config, AppError>)
        ensures
            ({
                let expected = config_from(images@.map_values(|image: ImageConfig| image@), settings_view(settings@));
                &&& r is Ok <==> expected is Ok
                &&& r is Ok ==> r->Ok_0@ == expected->Ok_0
                &&& r is Err ==> r->Err_0 == expected->Err_0
                &&& r is Ok ==> r->Ok_0.rows >= 1 && r->Ok_0.cols >= 1 && r->Ok_0.width >= 1 && r->Ok_0.height >= 1
            }),
    {
        let ghost image_views = images@.map_values(|image: ImageConfig| image@);
        let output = match find_setting(&settings, &chars_of("output")) {
            None => {
                return Err(AppError::NeedOutputError);
            },
            Some(k) => string_of(&settings[k].1),
        };
        let rows = match read_number(&settings, "rows", u32::MAX as u64, AppError::NeedRowsError, AppError::ParseRowsError) {
            Ok(v) => v as u32,
            Err(e) => {
                return Err(e);
            },
        };
        let cols = match read_number(&settings, "cols", u32::MAX as u64, AppError::NeedColsError, AppError::ParseColsError) {
            Ok(v) => v as u32,
            Err(e) => {
                return Err(e);
            },
        };
        if rows < 1 || cols < 1 {
            return Err(AppError::InvalidRowsColsError);
        }
        let height = match read_number(&settings, "height", u32::MAX as u64, AppError::NeedHeightError, AppError::ParseHeightError) {
            Ok(v) => v as u32,
            Err(e) => {
                return Err(e);
            },
        };
        let width = match read_number(&settings, "width", u32::MAX as u64, AppError::NeedWidthError, AppError::ParseWidthError) {
            Ok(v) => v as u32,
            Err(e) => {
                return Err(e);
            },
        };
        if height < 1 || width < 1 {
            return Err(AppError::InvalidWidthHeightError);
        }
        let background_color = match find_setting(&settings, &chars_of("background_color")) {
            None => {
                return Err(AppError::NeedBackgroundColorError);
            },
            Some(k) => match parse_color(&settings[k].1) {
                None => {
                    return Err(AppError::ParseBackgroundColorError);
                },
                Some(color) => color,
            },
        };
        if images.len() < 1 {
            return Err(AppError::NeedImagesError);
        }
        let threads = match find_setting(&settings, &chars_of("threads")) {
            None => 1,
            Some(k) => match parse_decimal(&settings[k].1, 255) {
                None => {
                    return Err(AppError::ParseThreadsError);
                },
                Some(v) => v as u8,
            },
        };
        let r = Config { output, rows, cols, height, width, background_color, images, threads };
        assert(r@ == config_from(image_views, settings_view(settings@))->Ok_0);
        Ok(r)
    }
}

} // verus!
