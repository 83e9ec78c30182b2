//! What can be wrong with settings.

use crate::text;
use crate::text::decimal_text;
use vstd::prelude::*;

verus! {

/// A table entry that does not say which tables it is for.
#[derive(Clone, Copy, Debug, PartialEq, Eq, Structural)]
pub enum SettingsError {
    /// The entry at this position has both `name` and `names`.
    BothNameAndNames { table: usize },
    /// The entry at this position has neither `name` nor `names`.
    NeitherNameNorNames { table: usize },
}

impl SettingsError {
    /// The text of [`SettingsError::message`].
    pub open spec fn message_text(self) -> Seq<char> {
        match self {
            SettingsError::BothNameAndNames { table } => "tables["@ + text::decimal(table as nat)
                + "]: cannot specify both `name` and `names` — use one or the other"@,
            SettingsError::NeitherNameNorNames { table } => "tables["@ + text::decimal(
                table as nat,
            ) + "]: must specify either `name` or `names`"@,
        }
    }

    /// A description for the author of the settings.
    pub fn message(&self) -> (message: String)
        ensures
            message@ == self.message_text(),
    {
        match self {
            SettingsError::BothNameAndNames { table } => "tables[".to_owned().concat(
                decimal_text(*table).as_str(),
            ).concat("]: cannot specify both `name` and `names` — use one or the other"),
            SettingsError::NeitherNameNorNames { table } => "tables[".to_owned().concat(
                decimal_text(*table).as_str(),
            ).concat("]: must specify either `name` or `names`"),
        }
    }
}

/// The message of an error holds the position of the entry in decimal notation,
/// between a text that is always the same and one that tells what is wrong with it.
pub proof fn law_message(table: usize)
    ensures
        ({
            let head = "tables["@;
            let tail = "]: cannot specify both `name` and `names` — use one or the other"@;
            let text = (SettingsError::BothNameAndNames { table }).message_text();
            &&& text.len() >= head.len() + tail.len()
            &&& head.is_prefix_of(text)
            &&& tail.is_suffix_of(text)
            &&& text.subrange(head.len() as int, text.len() - tail.len()) == text::decimal(
                table as nat,
            )
        }),
        ({
            let head = "tables["@;
            let tail = "]: must specify either `name` or `names`"@;
            let text = (SettingsError::NeitherNameNorNames { table }).message_text();
            &&& text.len() >= head.len() + tail.len()
            &&& head.is_prefix_of(text)
            &&& tail.is_suffix_of(text)
            &&& text.subrange(head.len() as int, text.len() - tail.len()) == text::decimal(
                table as nat,
            )
        }),
{
    let head = "tables["@;
    let middle = text::decimal(table as nat);
    let both = (SettingsError::BothNameAndNames { table }).message_text();
    let neither = (SettingsError::NeitherNameNorNames { table }).message_text();
    let both_tail = "]: cannot specify both `name` and `names` — use one or the other"@;
    let neither_tail = "]: must specify either `name` or `names`"@;
    assert(both.take(head.len() as int) =~= head);
    assert(both.skip(both.len() - both_tail.len()) =~= both_tail);
    assert(both.subrange(head.len() as int, both.len() - both_tail.len()) =~= middle);
    assert(neither.take(head.len() as int) =~= head);
    assert(neither.skip(neither.len() - neither_tail.len()) =~= neither_tail);
    assert(neither.subrange(head.len() as int, neither.len() - neither_tail.len()) =~= middle);
}

} // verus!
