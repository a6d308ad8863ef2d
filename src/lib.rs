pub mod grammar;
pub mod optional_region;
pub mod region;
pub mod string_region;
pub mod text;

pub use grammar::RegionError;
pub use optional_region::OptionalRegion;
pub use region::Region;
pub use string_region::StringRegion;
