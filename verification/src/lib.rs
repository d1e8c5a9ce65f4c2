//! Merges a directory of SVG icons into one sprite sheet: every input file
//! becomes a `<pattern>` inside a shared `<defs>` block.
//!
//! The library holds what is decided and computed: the parser of the root
//! tag, the normalization of its attributes, the rewriting of ids, the
//! assembly of the sprite document, the cache of a watch and the steps of the
//! watch loop. It reads no file and writes none, and it does no arithmetic on
//! real numbers: a caller lists the directory, reads the files, reads numeric
//! tokens as numbers, and writes the document.
//!
//! Text is modelled as a sequence of characters (`Seq<char>`), which is the
//! view of `str` and `String`. Every public function states its result over
//! that model.
pub mod cli;
pub mod error;
pub mod svg;
pub mod text;
