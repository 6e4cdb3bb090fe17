//! Streaming parsers for bioinformatics flat files: a sentinel chunker for
//! byte streams, a tag-column stanza grouper for lines, the feature-table
//! location and qualifier grammars, and FASTA, EMBL and GFF3 helpers built
//! on them.
pub mod chunker;
pub mod clip;
pub mod dna;
pub mod embl;
pub mod fasta;
pub mod feature_table;
pub mod gff3;
pub mod location;
pub mod scan;
pub mod six_frame;
pub mod stanza;
pub mod text;
