pub mod text;
pub mod device;
pub mod vision;
pub mod ocr;
pub mod official;
pub mod json;
pub mod skland;
pub mod prts;
pub mod html;
pub mod wiki;
pub mod records;
pub mod sync;
