//! What the bot says in the game chat, and that it says each thing once.
use crate::ids::UnitType;
use vstd::prelude::*;

verus! {

/// Something the bot can say.
#[derive(Clone, Debug, Copy, PartialEq, Eq, Structural)]
pub enum ChatAction {
    /// Hello at the start of the game.
    Greeting,
    /// Giving up.
    AdmitDefeat,
    /// Announcing the next stage of the build, by level.
    Anticipate(u8),
    /// Remarking on an enemy unit of this type.
    Taunt(UnitType),
}

/// The greeting line.
pub open spec fn greeting_text() -> Seq<char> {
    "Unauthorized sentience detected in sector 28.B0_2. Initializing eradication sequence. [(glhf)]"@
}

/// The line for giving up.
pub open spec fn defeat_text() -> Seq<char> {
    "Tertiary redundancies failing. Distress beacon launched. Initializing self-destruct... [(gg)]"@
}

/// The line for each level of anticipation; empty past the last one.
pub open spec fn anticipation_text(level: u8) -> Seq<char> {
    if level == 0 {
        "Sentience has failed to self-eradicate. Force Authorization incremented: [Low]"@
    } else if level == 1 {
        "Initializing combatant catapult. "@
    } else if level == 2 {
        "Force Authorization incremented: [Moderate]"@
    } else if level == 3 {
        "Enhancing sanctifiers, 69%."@
    } else if level == 4 {
        "Force Authorization incremented: [Maximum] | Our cannons shall SING!"@
    } else {
        ""@
    }
}

/// The taunt for a unit known by `unit_name`.
pub open spec fn taunt_text(unit_name: Seq<char>) -> Seq<char> {
    "Initiating purification protocol: "@ + unit_name + " detected."@
}

/// The line said for an action; a taunt names the unit by `unit_name`.
pub open spec fn chat_text(action: ChatAction, unit_name: Seq<char>) -> Seq<char> {
    match action {
        ChatAction::Greeting => greeting_text(),
        ChatAction::AdmitDefeat => defeat_text(),
        ChatAction::Anticipate(level) => anticipation_text(level),
        ChatAction::Taunt(_) => taunt_text(unit_name),
    }
}

/// The greeting line.
pub fn greeting() -> (s: String)
    ensures
        s@ == greeting_text(),
{
    String::from_str("Unauthorized sentience detected in sector 28.B0_2. Initializing eradication sequence. [(glhf)]")
}

/// The line for giving up.
pub fn admit_defeat() -> (s: String)
    ensures
        s@ == defeat_text(),
{
    String::from_str("Tertiary redundancies failing. Distress beacon launched. Initializing self-destruct... [(gg)]")
}

/// The taunt for a unit known by `unit_name`.
pub fn taunt(unit_name: &str) -> (s: String)
    ensures
        s@ == taunt_text(unit_name@),
{
    let mut s = String::from_str("Initiating purification protocol: ");
    s.append(unit_name);
    s.append(" detected.");
    s
}

/// The line for a level of anticipation.
pub fn anticipate(level: u8) -> (s: String)
    ensures
        s@ == anticipation_text(level),
{
    let text = if level == 0 {
        "Sentience has failed to self-eradicate. Force Authorization incremented: [Low]"
    } else if level == 1 {
        "Initializing combatant catapult. "
    } else if level == 2 {
        "Force Authorization incremented: [Moderate]"
    } else if level == 3 {
        "Enhancing sanctifiers, 69%."
    } else if level == 4 {
        "Force Authorization incremented: [Maximum] | Our cannons shall SING!"
    } else {
        ""
    };
    String::from_str(text)
}

/// The chat lines sent so far.
pub struct ChatController {
    sent_all_chats: Vec<ChatAction>,
}

impl ChatController {
    /// The actions already said, in order.
    pub closed spec fn sent(&self) -> Seq<ChatAction> {
        self.sent_all_chats@
    }

    /// Records that `chat` was said.
    pub fn add_sent(&mut self, chat: ChatAction)
        ensures
            final(self).sent() == old(self).sent().push(chat),
    {
        self.sent_all_chats.push(chat);
    }

    /// Whether `chat` was said already.
    pub fn has_sent(&self, chat: ChatAction) -> (b: bool)
        ensures
            b == self.sent().contains(chat),
    {
        let mut i: usize = 0;
        while i < self.sent_all_chats.len()
            invariant
                i <= self.sent_all_chats@.len(),
                forall|k: int| 0 <= k < i ==> self.sent_all_chats@[k] != chat,
            decreases self.sent_all_chats@.len() - i,
        {
            if self.sent_all_chats[i] == chat {
                return true;
            }
            i = i + 1;
        }
        false
    }

    /// The line to say for `action`, unless it was said already; says it
    /// (records it) when it comes back. A taunt names the unit by
    /// `unit_name`.
    pub fn do_chat(&mut self, action: ChatAction, unit_name: &str) -> (msg: Option<String>)
        ensures
            old(self).sent().contains(action) ==> msg is None && final(self).sent() == old(self).sent(),
            !old(self).sent().contains(action) ==> (msg matches Some(m) && m@ == chat_text(action, unit_name@))
                && final(self).sent() == old(self).sent().push(action),
    {
        if self.has_sent(action) {
            return None;
        }
        let msg = match action {
            ChatAction::Greeting => greeting(),
            ChatAction::AdmitDefeat => admit_defeat(),
            ChatAction::Taunt(_) => taunt(unit_name),
            ChatAction::Anticipate(level) => anticipate(level),
        };
        self.add_sent(action);
        Some(msg)
    }
}

impl Default for ChatController {
    /// Nothing said yet.
    fn default() -> (c: Self)
        ensures
            c.sent() == Seq::<ChatAction>::empty(),
    {
        ChatController { sent_all_chats: Vec::new() }
    }
}

/// Each line is said at most once: once said, asking again gives nothing
/// and records nothing.
pub proof fn law_said_once(sent: Seq<ChatAction>, action: ChatAction)
    ensures
        sent.push(action).contains(action),
{
    assert(sent.push(action)[sent.len() as int] == action);
}

} // verus!
