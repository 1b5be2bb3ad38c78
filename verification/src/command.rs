//! The commands that a peer sends as text: `ADD` and `REMOVE`, each with an
//! address.
//!
//! A text of exactly two words whose first is `ADD` or `REMOVE` is a command.
//! Where its second word denotes no address the command is dropped without a
//! word to the peer. Every other text is no command, and goes back to the
//! peer as it came.

use crate::address::{
    address_of, address_text, lemma_address_round_trip, lemma_address_text_is_word, read_address,
    Address,
};
use crate::filter::{may_follow, Filter, FilterState};
use crate::text::{chars_of, cut, is_word, lemma_two_words, piece_is, split_words, words};
use vstd::string::*;
use vstd::prelude::*;

verus! {

/// How many words a command has.
pub const MESSAGE_ARGS_LENGTH: usize = 2;

/// What a text asks of the gateway.
#[derive(Clone, Copy, Debug, PartialEq, Eq, Structural)]
pub enum Instruction {
    /// Put the address on the allow-list.
    Add(Address),
    /// Take the address off the allow-list.
    Remove(Address),
    /// A command whose argument denotes no address: do nothing, say nothing.
    Ignore,
    /// No command: send the text back.
    Echo,
}

/// What the text `text` asks.
pub open spec fn instruction_of(text: Seq<char>) -> Instruction {
    let w = words(text);
    if w.len() != MESSAGE_ARGS_LENGTH {
        Instruction::Echo
    } else if w[0] == "ADD"@ {
        match address_of(w[1]) {
            Some(ip) => Instruction::Add(ip),
            None => Instruction::Ignore,
        }
    } else if w[0] == "REMOVE"@ {
        match address_of(w[1]) {
            Some(ip) => Instruction::Remove(ip),
            None => Instruction::Ignore,
        }
    } else {
        Instruction::Echo
    }
}

impl Instruction {
    /// Whether the instruction goes back to the peer as the text that it
    /// came in.
    pub open spec fn echoes(self) -> bool {
        self == Instruction::Echo
    }

    /// The state of the filter after the instruction was carried out, where
    /// `drawn` is the number drawn for the next token.
    pub open spec fn carried_out(self, state: FilterState, drawn: u64) -> FilterState {
        match self {
            Instruction::Add(ip) => state.added(ip, drawn),
            Instruction::Remove(ip) => state.removed(ip),
            Instruction::Ignore => state,
            Instruction::Echo => state,
        }
    }

    /// Whether carrying the instruction out changes the list: it adds an
    /// address that was not on it, or removes one that was.
    pub open spec fn changes_list(self, state: FilterState) -> bool {
        match self {
            Instruction::Add(ip) => !state.contains(ip),
            Instruction::Remove(ip) => state.contains(ip) && ip != crate::address::loopback(),
            Instruction::Ignore => false,
            Instruction::Echo => false,
        }
    }
}

/// A text of one word, or of three or more, is no command.
pub proof fn lemma_other_lengths_echo(text: Seq<char>)
    requires
        words(text).len() != MESSAGE_ARGS_LENGTH,
    ensures
        instruction_of(text).echoes(),
{
}

/// A text that is no command leaves the filter as it is, whatever was drawn.
pub proof fn lemma_echo_changes_nothing(text: Seq<char>, state: FilterState, drawn: u64)
    requires
        instruction_of(text).echoes(),
    ensures
        instruction_of(text).carried_out(state, drawn) == state,
{
}

/// The words `ADD` and `REMOVE` are words, and not the same word.
pub proof fn lemma_command_names()
    ensures
        is_word("ADD"@),
        is_word("REMOVE"@),
        "ADD"@ != "REMOVE"@,
{
    reveal_strlit("ADD");
    reveal_strlit("REMOVE");
    assert("ADD"@ =~= seq!['A', 'D', 'D']);
    assert("REMOVE"@ =~= seq!['R', 'E', 'M', 'O', 'V', 'E']);
    assert("ADD"@.len() != "REMOVE"@.len());
}

/// A word, a space and an address as it is written are two words, of which
/// the second denotes the address.
pub proof fn lemma_command_words(name: Seq<char>, ip: Address)
    requires
        is_word(name),
    ensures
        words(name + seq![' '] + address_text(ip)) == seq![name, address_text(ip)],
        address_of(address_text(ip)) == Some(ip),
{
    lemma_address_text_is_word(ip);
    lemma_address_round_trip(ip);
    lemma_two_words(name, address_text(ip));
}

/// The word `ADD`, a space and an address as it is written ask to add that
/// address, and the word `REMOVE` before the same asks to remove it.
pub proof fn lemma_commands_are_understood(ip: Address)
    ensures
        instruction_of("ADD"@ + seq![' '] + address_text(ip)) == Instruction::Add(ip),
        instruction_of("REMOVE"@ + seq![' '] + address_text(ip)) == Instruction::Remove(ip),
{
    lemma_command_names();
    lemma_command_words("ADD"@, ip);
    lemma_command_words("REMOVE"@, ip);
    let adding = words("ADD"@ + seq![' '] + address_text(ip));
    assert(adding.len() == 2 && adding[0] == "ADD"@ && adding[1] == address_text(ip));
    let removing = words("REMOVE"@ + seq![' '] + address_text(ip));
    assert(removing.len() == 2 && removing[0] == "REMOVE"@ && removing[1] == address_text(ip));
}

/// Carrying out the removal of an address twice in a row leaves the address
/// off the list both times, and the second time changes nothing.
pub proof fn lemma_remove_is_idempotent(state: FilterState, ip: Address, drawn: u64, again: u64)
    requires
        ip != crate::address::loopback(),
    ensures
        ({
            let once = Instruction::Remove(ip).carried_out(state, drawn);
            let twice = Instruction::Remove(ip).carried_out(once, again);
            &&& !once.contains(ip)
            &&& !twice.contains(ip)
            &&& twice == once
            &&& !Instruction::Remove(ip).changes_list(once)
        }),
{
    crate::filter::lemma_remove_twice(state, ip);
}

/// What the text `text` asks.
pub fn read_instruction(text: &str) -> (instruction: Instruction)
    ensures
        instruction == instruction_of(text@),
{
    let chars = chars_of(text);
    let spans = split_words(&chars);
    if spans.len() != MESSAGE_ARGS_LENGTH {
        return Instruction::Echo;
    }
    proof {
        assert(cut(chars@, spans@)[0] == words(text@)[0]);
        assert(cut(chars@, spans@)[1] == words(text@)[1]);
    }
    if piece_is(&chars, spans[0].0, spans[0].1, "ADD") {
        match read_address(&chars, spans[1].0, spans[1].1) {
            Some(ip) => Instruction::Add(ip),
            None => Instruction::Ignore,
        }
    } else if piece_is(&chars, spans[0].0, spans[0].1, "REMOVE") {
        match read_address(&chars, spans[1].0, spans[1].1) {
            Some(ip) => Instruction::Remove(ip),
            None => Instruction::Ignore,
        }
    } else {
        Instruction::Echo
    }
}

impl Filter {
    /// Carries `instruction` out on the filter. Returns whether the list
    /// changed.
    pub fn execute(&mut self, instruction: Instruction) -> (changed: bool)
        ensures
            changed == instruction.changes_list(old(self)@),
            exists|drawn: u64| final(self)@ == instruction.carried_out(old(self)@, drawn),
            final(self)@.clients == instruction.carried_out(old(self)@, 0).clients,
            instruction is Add ==> may_follow(final(self)@.token, old(self)@.token),
            !(instruction is Add) ==> final(self)@.token == old(self)@.token,
            final(self)@.trusts_own_host(),
    {
        match instruction {
            Instruction::Add(ip) => {
                let changed = self.add_ip(ip);
                proof {
                    let drawn = choose|drawn: u64| final(self)@ == old(self)@.added(ip, drawn);
                    assert(final(self)@ == instruction.carried_out(old(self)@, drawn));
                }
                changed
            },
            Instruction::Remove(ip) => {
                let changed = self.remove_ip(&ip);
                assert(final(self)@ == instruction.carried_out(old(self)@, 0));
                changed
            },
            Instruction::Ignore => {
                proof {
                    self.lemma_always_trusts_own_host();
                    assert(self@ == instruction.carried_out(old(self)@, 0));
                }
                false
            },
            Instruction::Echo => {
                proof {
                    self.lemma_always_trusts_own_host();
                    assert(self@ == instruction.carried_out(old(self)@, 0));
                }
                false
            },
        }
    }

    /// Carries `instruction` out on the filter as `execute` does, with
    /// `drawn` as the number drawn for the next token.
    pub fn execute_with(&mut self, instruction: Instruction, drawn: u64) -> (changed: bool)
        ensures
            changed == instruction.changes_list(old(self)@),
            final(self)@ == instruction.carried_out(old(self)@, drawn),
            final(self)@.trusts_own_host(),
    {
        match instruction {
            Instruction::Add(ip) => self.add_ip_with(ip, drawn),
            Instruction::Remove(ip) => self.remove_ip(&ip),
            Instruction::Ignore => {
                proof {
                    self.lemma_always_trusts_own_host();
                }
                false
            },
            Instruction::Echo => {
                proof {
                    self.lemma_always_trusts_own_host();
                }
                false
            },
        }
    }
}

} // verus!
