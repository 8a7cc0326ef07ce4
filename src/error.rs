use vstd::prelude::*;
use vstd::string::StringExecFns;

verus! {

/// Everything that can go wrong while reading a configuration or combining images.
#[derive(Debug, Clone, Copy, PartialEq, Eq, Structural)]
pub enum AppError {
    NeedOutputError,
    NeedRowsError,
    ParseRowsError,
    NeedColsError,
    ParseColsError,
    NeedHeightError,
    ParseHeightError,
    NeedWidthError,
    ParseWidthError,
    NeedBackgroundColorError,
    ParseBackgroundColorError,
    NeedImagesError,
    ParseImageError,
    InvalidRowsColsError,
    /// WIDTH or HEIGHT is 0.
    InvalidWidthHeightError,
    /// A line of the configuration holds no `=`.
    ParseLineError,
    /// The `THREADS` value is not a number from 0 to 255.
    ParseThreadsError,
    LoadImageError,
    SaveImageError,
    /// A placement names a cell outside the placement matrix.
    CellOutOfRangeError,
}

/// The message that describes `e` to a user.
pub open spec fn error_message(e: AppError) -> Seq<char> {
    match e {
        AppError::NeedOutputError => "Need OUTPUT in config"@,
        AppError::NeedRowsError => "Need ROWS in config"@,
        AppError::ParseRowsError => "Failed to parse ROWS"@,
        AppError::NeedColsError => "Need COL in config"@,
        AppError::ParseColsError => "Failed to parse COLS"@,
        AppError::NeedHeightError => "Need HEIGHT in config"@,
        AppError::ParseHeightError => "Failed to parse HEIGHT"@,
        AppError::NeedWidthError => "Need WIDTH in config"@,
        AppError::ParseWidthError => "Failed to parse WIDTH"@,
        AppError::NeedBackgroundColorError => "Need BACKGROUND_COLOR in config"@,
        AppError::ParseBackgroundColorError => "BACKGROUND_COLOR needs to be in format <red,green,blue,alpha>"@,
        AppError::NeedImagesError => "Need IMAGE in config"@,
        AppError::ParseImageError => "IMAGE needs to be in format <row,col,path_to_image>"@,
        AppError::InvalidRowsColsError => "ROWS or COLS cannot be lesser than 1"@,
        AppError::InvalidWidthHeightError => "WIDTH or HEIGHT cannot be lesser than 1"@,
        AppError::ParseLineError => "Config lines need to be in format <KEY=value>"@,
        AppError::ParseThreadsError => "Failed to parse THREADS"@,
        AppError::LoadImageError => "Failed to load image"@,
        AppError::SaveImageError => "Failed to save image"@,
        AppError::CellOutOfRangeError => "IMAGE row or col lies outside the grid"@,
    }
}

impl AppError {
    /// A sentence that describes the error.
    pub fn message(&self) -> (r: String)
        ensures
            r@ == error_message(*self),
    {
        match self {
            AppError::NeedOutputError => String::from_str("Need OUTPUT in config"),
            AppError::NeedRowsError => String::from_str("Need ROWS in config"),
            AppError::ParseRowsError => String::from_str("Failed to parse ROWS"),
            AppError::NeedColsError => String::from_str("Need COL in config"),
            AppError::ParseColsError => String::from_str("Failed to parse COLS"),
            AppError::NeedHeightError => String::from_str("Need HEIGHT in config"),
            AppError::ParseHeightError => String::from_str("Failed to parse HEIGHT"),
            AppError::NeedWidthError => String::from_str("Need WIDTH in config"),
            AppError::ParseWidthError => String::from_str("Failed to parse WIDTH"),
            AppError::NeedBackgroundColorError => String::from_str("Need BACKGROUND_COLOR in config"),
            AppError::ParseBackgroundColorError => String::from_str("BACKGROUND_COLOR needs to be in format <red,green,blue,alpha>"),
            AppError::NeedImagesError => String::from_str("Need IMAGE in config"),
            AppError::ParseImageError => String::from_str("IMAGE needs to be in format <row,col,path_to_image>"),
            AppError::InvalidRowsColsError => String::from_str("ROWS or COLS cannot be lesser than 1"),
            AppError::InvalidWidthHeightError => String::from_str("WIDTH or HEIGHT cannot be lesser than 1"),
            AppError::ParseLineError => String::from_str("Config lines need to be in format <KEY=value>"),
            AppError::ParseThreadsError => String::from_str("Failed to parse THREADS"),
            AppError::LoadImageError => String::from_str("Failed to load image"),
            AppError::SaveImageError => String::from_str("Failed to save image"),
            AppError::CellOutOfRangeError => String::from_str("IMAGE row or col lies outside the grid"),
        }
    }
}

} // verus!
