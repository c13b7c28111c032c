//! The commands of the interactive shell: how a line of input is read, and
//! what each command asks of the table and of the operating system.

use crate::allocator::{
    first_position, holds, listing, mapping_length, page_aligned, AllocError, MmapAllocator,
    Region, INVALID_ARGUMENT,
};
use crate::text::{
    chars_of, join_words, joined, number, parse_number, spelled, spells, split_words, words,
};
use vstd::prelude::*;

verus! {

/// One line of input, understood.
#[derive(Debug, PartialEq, Eq)]
pub enum Command {
    /// Create a region of at least this many bytes.
    Allocate(usize),
    /// Release the region at this position of the table.
    Free(usize),
    /// Show the table.
    List,
    /// Write the text to the start of the region at this position.
    Write(usize, String),
    /// Read this many bytes from the start of the region at this position.
    Read(usize, usize),
    /// Show the commands.
    Help,
    /// End the session.
    Quit,
    /// Nothing to do: the line was empty or could not be understood.
    Unknown,
}

/// A command as contracts see it: the text of a `Write` as characters.
pub enum CommandView {
    Allocate(usize),
    Free(usize),
    List,
    Write(usize, Seq<char>),
    Read(usize, usize),
    Help,
    Quit,
    Unknown,
}

impl View for Command {
    type V = CommandView;

    open spec fn view(&self) -> CommandView {
        match *self {
            Command::Allocate(size) => CommandView::Allocate(size),
            Command::Free(index) => CommandView::Free(index),
            Command::List => CommandView::List,
            Command::Write(index, data) => CommandView::Write(index, data@),
            Command::Read(index, length) => CommandView::Read(index, length),
            Command::Help => CommandView::Help,
            Command::Quit => CommandView::Quit,
            Command::Unknown => CommandView::Unknown,
        }
    }
}

/// What to tell the user about a line that gave no command.
#[derive(Clone, Copy, Debug, PartialEq, Eq, Structural)]
pub enum Complaint {
    /// `alloc` needs a size.
    AllocUsage,
    /// `free` needs a position.
    FreeUsage,
    /// `write` needs a position and a text.
    WriteUsage,
    /// `read` needs a position and a length.
    ReadUsage,
    /// The size is not a number.
    InvalidSize,
    /// The position is not a number.
    InvalidIndex,
    /// The length is not a number.
    InvalidLength,
    /// The first word names no command.
    UnknownCommand,
}

/// A line that is not understood gives no command and `complaint`.
pub open spec fn refused(complaint: Complaint) -> (CommandView, Option<Complaint>) {
    (CommandView::Unknown, Some(complaint))
}

/// A line that is understood gives `command` and nothing to complain of.
pub open spec fn accepted(command: CommandView) -> (CommandView, Option<Complaint>) {
    (command, None)
}

/// What the words of a line mean. The first word names the command, by its
/// full name or its short form; the words after it are its arguments, and
/// words beyond those that the command takes are ignored. The text of a
/// `write` is all the words from the third on, joined by single blanks.
pub open spec fn meaning(parts: Seq<Seq<char>>) -> (CommandView, Option<Complaint>) {
    if parts.len() == 0 {
        accepted(CommandView::Unknown)
    } else if parts[0] == "alloc"@ || parts[0] == "a"@ {
        if parts.len() < 2 {
            refused(Complaint::AllocUsage)
        } else {
            match number(parts[1]) {
                Some(size) => accepted(CommandView::Allocate(size)),
                None => refused(Complaint::InvalidSize),
            }
        }
    } else if parts[0] == "free"@ || parts[0] == "f"@ {
        if parts.len() < 2 {
            refused(Complaint::FreeUsage)
        } else {
            match number(parts[1]) {
                Some(index) => accepted(CommandView::Free(index)),
                None => refused(Complaint::InvalidIndex),
            }
        }
    } else if parts[0] == "list"@ || parts[0] == "l"@ {
        accepted(CommandView::List)
    } else if parts[0] == "write"@ || parts[0] == "w"@ {
        if parts.len() < 3 {
            refused(Complaint::WriteUsage)
        } else {
            match number(parts[1]) {
                Some(index) => accepted(CommandView::Write(index, joined(parts.skip(2)))),
                None => refused(Complaint::InvalidIndex),
            }
        }
    } else if parts[0] == "read"@ || parts[0] == "r"@ {
        if parts.len() < 3 {
            refused(Complaint::ReadUsage)
        } else {
            match number(parts[1]) {
                Some(index) => match number(parts[2]) {
                    Some(length) => accepted(CommandView::Read(index, length)),
                    None => refused(Complaint::InvalidLength),
                },
                None => refused(Complaint::InvalidIndex),
            }
        }
    } else if parts[0] == "quit"@ || parts[0] == "q"@ || parts[0] == "exit"@ {
        accepted(CommandView::Quit)
    } else if parts[0] == "help"@ || parts[0] == "h"@ {
        accepted(CommandView::Help)
    } else {
        refused(Complaint::UnknownCommand)
    }
}

/// Reads one line of input: the command it gives, and what to tell the user
/// where it gives none. An empty line gives no command and no complaint.
pub fn parse_command(input: &str) -> (parsed: (Command, Option<Complaint>))
    ensures
        (parsed.0@, parsed.1) == meaning(words(input@)),
{
    let line = chars_of(input);
    let parts = split_words(&line);
    if parts.len() == 0 {
        return (Command::Unknown, None);
    }
    let ghost spelling = spelled(parts@);
    assert(spelling[0] == parts@[0]@);
    let name = &parts[0];
    if spells(name, "alloc") || spells(name, "a") {
        if parts.len() < 2 {
            return (Command::Unknown, Some(Complaint::AllocUsage));
        }
        assert(spelling[1] == parts@[1]@);
        match parse_number(&parts[1]) {
            Some(size) => (Command::Allocate(size), None),
            None => (Command::Unknown, Some(Complaint::InvalidSize)),
        }
    } else if spells(name, "free") || spells(name, "f") {
        if parts.len() < 2 {
            return (Command::Unknown, Some(Complaint::FreeUsage));
        }
        assert(spelling[1] == parts@[1]@);
        match parse_number(&parts[1]) {
            Some(index) => (Command::Free(index), None),
            None => (Command::Unknown, Some(Complaint::InvalidIndex)),
        }
    } else if spells(name, "list") || spells(name, "l") {
        (Command::List, None)
    } else if spells(name, "write") || spells(name, "w") {
        if parts.len() < 3 {
            return (Command::Unknown, Some(Complaint::WriteUsage));
        }
        assert(spelling[1] == parts@[1]@);
        match parse_number(&parts[1]) {
            Some(index) => {
                let data = join_words(&parts, 2);
                (Command::Write(index, data), None)
            },
            None => (Command::Unknown, Some(Complaint::InvalidIndex)),
        }
    } else if spells(name, "read") || spells(name, "r") {
        if parts.len() < 3 {
            return (Command::Unknown, Some(Complaint::ReadUsage));
        }
        assert(spelling[1] == parts@[1]@);
        assert(spelling[2] == parts@[2]@);
        match parse_number(&parts[1]) {
            Some(index) => match parse_number(&parts[2]) {
                Some(length) => (Command::Read(index, length), None),
                None => (Command::Unknown, Some(Complaint::InvalidLength)),
            },
            None => (Command::Unknown, Some(Complaint::InvalidIndex)),
        }
    } else if spells(name, "quit") || spells(name, "q") || spells(name, "exit") {
        (Command::Quit, None)
    } else if spells(name, "help") || spells(name, "h") {
        (Command::Help, None)
    } else {
        (Command::Unknown, Some(Complaint::UnknownCommand))
    }
}

/// What the caller is to do for a command. The table has made its decision;
/// what is left is work on the operating system, on memory or on the screen.
#[derive(Debug, PartialEq, Eq)]
pub enum Action {
    /// Ask the operating system for a new zero-filled, anonymous, private
    /// mapping of `length` bytes that can be read and written, and hand its
    /// answer to `MmapAllocator::allocate` together with `size`.
    MapRegion { size: usize, length: usize },
    /// Ask the operating system to release `region`, which has left the table
    /// from position `index`, and hand its answer to `unmap_outcome`.
    UnmapRegion { index: usize, region: Region },
    /// Show these entries.
    List(Vec<(usize, usize, usize)>),
    /// Write `data` to the memory of `region`, which is at position `index`.
    Write { index: usize, region: Region, data: String },
    /// Read `length` bytes from the memory of `region`, which is at position
    /// `index`.
    Read { index: usize, region: Region, length: usize },
    /// Show the commands.
    Help,
    /// End the session.
    Quit,
    /// Report this error. Nothing was changed.
    Reject(AllocError),
    /// Go on to the next line.
    Nothing,
}

/// An action as contracts see it.
pub enum ActionView {
    MapRegion { size: usize, length: usize },
    UnmapRegion { index: usize, region: Region },
    List(Seq<(usize, usize, usize)>),
    Write { index: usize, region: Region, data: Seq<char> },
    Read { index: usize, region: Region, length: usize },
    Help,
    Quit,
    Reject(AllocError),
    Nothing,
}

impl View for Action {
    type V = ActionView;

    open spec fn view(&self) -> ActionView {
        match *self {
            Action::MapRegion { size, length } => ActionView::MapRegion { size, length },
            Action::UnmapRegion { index, region } => ActionView::UnmapRegion { index, region },
            Action::List(entries) => ActionView::List(entries@),
            Action::Write { index, region, data } => ActionView::Write { index, region, data: data@ },
            Action::Read { index, region, length } => ActionView::Read { index, region, length },
            Action::Help => ActionView::Help,
            Action::Quit => ActionView::Quit,
            Action::Reject(error) => ActionView::Reject(error),
            Action::Nothing => ActionView::Nothing,
        }
    }
}

/// The position that a `free` of `index` empties: that of the first region
/// with the base address found at `index`.
pub open spec fn freed_position(table: Seq<Region>, index: int) -> int {
    first_position(table, table[index].base_address)
}

/// What a command asks for, given the table it meets. A position beyond the
/// table is an invalid index, whatever the command wanted there.
pub open spec fn action_for(command: CommandView, table: Seq<Region>) -> ActionView {
    match command {
        CommandView::Allocate(size) => if page_aligned(size as nat) <= usize::MAX {
            ActionView::MapRegion { size, length: page_aligned(size as nat) as usize }
        } else {
            ActionView::Reject(AllocError::MappingFailed { code: INVALID_ARGUMENT })
        },
        CommandView::Free(index) => if index < table.len() {
            ActionView::UnmapRegion { index, region: table[freed_position(table, index as int)] }
        } else {
            ActionView::Reject(AllocError::InvalidIndex)
        },
        CommandView::List => ActionView::List(listing(table)),
        CommandView::Write(index, data) => if index < table.len() {
            ActionView::Write { index, region: table[index as int], data }
        } else {
            ActionView::Reject(AllocError::InvalidIndex)
        },
        CommandView::Read(index, length) => if index < table.len() {
            ActionView::Read { index, region: table[index as int], length }
        } else {
            ActionView::Reject(AllocError::InvalidIndex)
        },
        CommandView::Help => ActionView::Help,
        CommandView::Quit => ActionView::Quit,
        CommandView::Unknown => ActionView::Nothing,
    }
}

/// The table after a command: a `free` of a position within it takes one
/// region out, and no other command changes it.
pub open spec fn table_after(command: CommandView, table: Seq<Region>) -> Seq<Region> {
    match command {
        CommandView::Free(index) => if index < table.len() {
            table.remove(freed_position(table, index as int))
        } else {
            table
        },
        _ => table,
    }
}

/// Decides what a command comes to: what it changes in the table, and what
/// the caller is to do next.
pub fn process_command(cmd: Command, allocator: &mut MmapAllocator) -> (action: Action)
    ensures
        old(allocator).wf() ==> final(allocator).wf(),
        action@ == action_for(cmd@, old(allocator)@),
        final(allocator)@ == table_after(cmd@, old(allocator)@),
{
    match cmd {
        Command::Allocate(size) => match mapping_length(size) {
            Some(length) => Action::MapRegion { size, length },
            None => Action::Reject(AllocError::MappingFailed { code: INVALID_ARGUMENT }),
        },
        Command::Free(index) => match allocator.region_at(index) {
            None => Action::Reject(AllocError::InvalidIndex),
            Some(found) => {
                assert(holds(allocator@, found.base_address)) by {
                    assert(allocator@[index as int].base_address == found.base_address);
                }
                match allocator.deallocate(found.base_address) {
                    Ok(region) => Action::UnmapRegion { index, region },
                    Err(error) => Action::Reject(error),
                }
            },
        },
        Command::List => Action::List(allocator.list_allocations()),
        Command::Write(index, data) => match allocator.region_at(index) {
            None => Action::Reject(AllocError::InvalidIndex),
            Some(region) => Action::Write { index, region, data },
        },
        Command::Read(index, length) => match allocator.region_at(index) {
            None => Action::Reject(AllocError::InvalidIndex),
            Some(region) => Action::Read { index, region, length },
        },
        Command::Help => Action::Help,
        Command::Quit => Action::Quit,
        Command::Unknown => Action::Nothing,
    }
}

} // verus!
