//! The two file formats of a program: assembly text and packed binary.
use crate::text::{characters, ends_with, has_suffix};
use crate::data::words_of;
use vstd::prelude::*;

pub mod assembly;
pub mod binary;

verus! {

/// The kind of a program file, told by the suffix of its name.
#[derive(Debug, Clone, Copy, PartialEq, Eq, Structural)]
pub enum FileType {
    Assembly,
    Binary,
}

impl FileType {
    /// The suffix of an assembly file's name.
    pub open spec fn assembly_suffix() -> Seq<char> {
        seq!['.', 'a', 's', 'm']
    }

    /// The suffix of a binary file's name.
    pub open spec fn binary_suffix() -> Seq<char> {
        seq!['.', 'b', 'i', 'n']
    }

    /// The kind of the file with the name `path`, if the name ends in one of
    /// the two suffixes.
    pub open spec fn of_path(path: Seq<char>) -> Result<FileType, ()> {
        if has_suffix(path, FileType::assembly_suffix()) {
            Ok(FileType::Assembly)
        } else if has_suffix(path, FileType::binary_suffix()) {
            Ok(FileType::Binary)
        } else {
            Err(())
        }
    }
}

impl TryFrom<&str> for FileType {
    type Error = ();

    fn try_from(path: &str) -> (kind: Result<FileType, ()>)
        ensures
            kind == FileType::of_path(path@),
    {
        let path = characters(path);
        let assembly = vec!['.', 'a', 's', 'm'];
        let binary = vec!['.', 'b', 'i', 'n'];

        if ends_with(&path, &assembly) {
            Ok(FileType::Assembly)
        } else if ends_with(&path, &binary) {
            Ok(FileType::Binary)
        } else {
            Err(())
        }
    }
}

impl vstd::std_specs::convert::TryFromSpecImpl<&str> for FileType {
    open spec fn obeys_try_from_spec() -> bool {
        true
    }

    open spec fn try_from_spec(path: &str) -> Result<FileType, ()> {
        FileType::of_path(path@)
    }
}

/// Assembling and reading back: the binary form of a program that was
/// read from text decodes to exactly the words of that program, in order.
pub proof fn lemma_assembled_round_trip(text: Seq<char>)
    ensures
        assembly::grammar::program(text) matches Ok(nodes) ==> binary::decoded(
            binary::encoded(words_of(nodes)),
        ) == words_of(nodes),
{
    assembly::grammar::lemma_program_wf(text);
    if let Ok(nodes) = assembly::grammar::program(text) {
        binary::lemma_nodes_round_trip(nodes);
    }
}

} // verus!
