//! Node hardware inventory: parsing of the vendor tools' and the operating
//! system's GPU reports, and the merge of those reports into one list.

pub mod gpu_os;
pub mod inventory;
pub mod nvidia;
pub mod amd;
