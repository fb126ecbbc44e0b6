//! A name-templating engine and the decision logic of a file-sorting watch
//! loop.
//!
//! Filenames encode a routing path through repeated separator-delimited
//! segments.  Each segment is resolved through a code table and an in-name
//! templating syntax: nested variable lookups between a begin and an end
//! delimiter, and positional back-references into the history of what was
//! resolved so far.  The modules below build on each other, leaves first:
//!
//! - [`chars`]: counting characters and keeping track of their absence;
//! - [`scan`]: finding the next resolvable variable span in a string;
//! - [`codes`]: the code table mapping shortcuts to their expansion text;
//! - [`backrefs`]: decoding positional back-reference runs;
//! - [`expand`]: one substitution pass over a string, and its fixed point;
//! - [`dates`]: the year and month folder names of the date-folder feature;
//! - [`compose`]: decomposing one filename into destination path segments;
//! - [`config`]: the configuration record, its defaults, merging and cleaning;
//! - [`scheduler`]: the decisions of the watch loop and of the config watcher.

pub mod backrefs;
pub mod chars;
pub mod codes;
pub mod compose;
pub mod config;
pub mod dates;
pub mod expand;
pub mod scan;
pub mod scheduler;

pub use backrefs::expand_last;
pub use compose::get_new_name;
pub use expand::expand;
pub use scan::find_first_valid_opening_bracket;
