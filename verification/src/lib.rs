//! A flat archive of named byte sections.
//!
//! An archive is a data area, in which the sections lie one behind the
//! other, a table of contents with one record for each section, and a
//! trailer of fixed size that says where the table begins. [`Writer`] streams
//! sections into an archive, [`Reader`] opens one, [`Toc`] finds a section by
//! name, and [`SectionReader`] reads a section without ever leaving it.
//!
//! The functions of the library are verified against their contracts. The
//! laws that hold across functions are proof functions: that an archive reads
//! back as it was written in [`archive`], and that the table's order is
//! tracked and restored as promised in [`sort`]. The few calls that leave the
//! library are gathered in [`outside`]; what is said of them is believed.

pub mod archive;
pub mod entry;
pub mod error;
pub mod format;
pub mod order;
pub mod outside;
pub mod reader;
pub mod section;
pub mod sort;
pub mod text;
pub mod toc;
pub mod tool;
pub mod writer;

pub use entry::{EntryView, TocEntry};
pub use error::{Error, ErrorKind};
pub use order::NameOrder;
pub use reader::Reader;
pub use section::SectionReader;
pub use toc::Toc;
pub use writer::{Writer, WriterState};
