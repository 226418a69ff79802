use vstd::prelude::*;

use crate::model::action::Action;

verus! {

/// The category name of an action, as replays and interfaces show it.
pub open spec fn spec_action_category(a: Action) -> Seq<char> {
    match a {
        Action::SkipOptional => "skip_optional"@,
        Action::UsePrivilege { .. } => "use_privilege"@,
        Action::ReplenishBoard => "replenish"@,
        Action::TakeTokens { .. } => "take_tokens"@,
        Action::ReserveCard { .. } => "reserve_card"@,
        Action::PurchaseCard { .. } => "purchase_card"@,
        Action::TakeGoldToken { .. } => "take_gold"@,
        Action::AssignJokerColor { .. } => "joker"@,
        Action::TakeSameColorToken { .. } => "same_color"@,
        Action::StealToken { .. } => "steal"@,
        Action::SelectRoyal { .. } => "royal"@,
        Action::DiscardToken { .. } => "discard"@,
    }
}

/// The category name of `action`.
pub fn action_category(action: &Action) -> (r: &'static str)
    ensures
        r@ == spec_action_category(*action),
{
    match action {
        Action::SkipOptional => "skip_optional",
        Action::UsePrivilege { .. } => "use_privilege",
        Action::ReplenishBoard => "replenish",
        Action::TakeTokens { .. } => "take_tokens",
        Action::ReserveCard { .. } => "reserve_card",
        Action::PurchaseCard { .. } => "purchase_card",
        Action::TakeGoldToken { .. } => "take_gold",
        Action::AssignJokerColor { .. } => "joker",
        Action::TakeSameColorToken { .. } => "same_color",
        Action::StealToken { .. } => "steal",
        Action::SelectRoyal { .. } => "royal",
        Action::DiscardToken { .. } => "discard",
    }
}

/// What `str::to_lowercase` gives for a string: each character replaced by its Unicode
/// lowercase mapping.
pub uninterp spec fn spec_lowercase(s: Seq<char>) -> Seq<char>;

/// Whether `c` has the Unicode `White_Space` property, the white space `str::trim`
/// removes: U+0009 to U+000D, U+0020, U+0085, U+00A0, U+1680, U+2000 to U+200A, U+2028,
/// U+2029, U+202F, U+205F and U+3000.
pub open spec fn is_white_space(c: char) -> bool {
    let n = c as u32;
    ||| 0x9 <= n <= 0xD
    ||| n == 0x20
    ||| n == 0x85
    ||| n == 0xA0
    ||| n == 0x1680
    ||| 0x2000 <= n <= 0x200A
    ||| n == 0x2028
    ||| n == 0x2029
    ||| n == 0x202F
    ||| n == 0x205F
    ||| n == 0x3000
}

/// The first position from `i` on whose character is not white space.
pub open spec fn trim_start(s: Seq<char>, i: int) -> int
    decreases s.len() - i,
{
    if i >= s.len() {
        s.len() as int
    } else if is_white_space(s[i]) {
        trim_start(s, i + 1)
    } else {
        i
    }
}

/// The end of `s.subrange(0, j)` once its trailing white space is dropped.
pub open spec fn trim_end(s: Seq<char>, j: int) -> int
    decreases j,
{
    if j <= 0 {
        0
    } else if is_white_space(s[j - 1]) {
        trim_end(s, j - 1)
    } else {
        j
    }
}

/// What `str::trim` gives for a string: the string without its leading and trailing
/// white space.
pub open spec fn spec_trim(s: Seq<char>) -> Seq<char> {
    let a = trim_start(s, 0);
    let b = trim_end(s, s.len() as int);
    if a < b {
        s.subrange(a, b)
    } else {
        Seq::empty()
    }
}

/// `str::to_lowercase`; its result depends on the string alone, and is named, not stated.
#[verifier::external_body]
pub(crate) fn lowercase(s: &str) -> (r: String)
    ensures
        r@ == spec_lowercase(s@),
{
    s.to_lowercase()
}

/// `str::trim`: the string without its leading and trailing Unicode white space (see
/// `spec_trim`).
#[verifier::external_body]
pub(crate) fn trimmed(s: &str) -> (r: &str)
    ensures
        r@ == spec_trim(s@),
{
    s.trim()
}

/// Whether `s` reads `lit`.
pub(crate) fn reads(s: &str, lit: &str) -> (r: bool)
    ensures
        r == (s@ == lit@),
{
    let a = s.to_owned();
    let b = lit.to_owned();
    a == b
}

/// The kind of player a replay records for a side.
#[derive(Debug, Clone, Copy, PartialEq, Eq, Structural)]
pub enum PlayerType {
    Heuristic,
    Random,
    Neural,
}

/// The player type a name gives, once lowercased and trimmed: "random", "neural", and
/// anything else the heuristic player.
pub open spec fn spec_player_type_named(t: Seq<char>) -> PlayerType {
    if t == "random"@ {
        PlayerType::Random
    } else if t == "neural"@ {
        PlayerType::Neural
    } else {
        PlayerType::Heuristic
    }
}

/// The name of a player type.
pub open spec fn spec_player_type_name(t: PlayerType) -> Seq<char> {
    match t {
        PlayerType::Heuristic => "heuristic"@,
        PlayerType::Random => "random"@,
        PlayerType::Neural => "neural"@,
    }
}

impl PlayerType {
    /// Reads a player type from its name, ignoring case and surrounding white space; an
    /// unknown name gives the heuristic player.
    pub fn parse(s: &str) -> (r: Self)
        ensures
            r == spec_player_type_named(spec_trim(spec_lowercase(s@))),
    {
        let lower = lowercase(s);
        let t = trimmed(lower.as_str());
        if reads(t, "random") {
            PlayerType::Random
        } else if reads(t, "neural") {
            PlayerType::Neural
        } else {
            PlayerType::Heuristic
        }
    }

    /// The name of this player type.
    pub fn as_str(&self) -> (r: &'static str)
        ensures
            r@ == spec_player_type_name(*self),
    {
        match self {
            PlayerType::Heuristic => "heuristic",
            PlayerType::Random => "random",
            PlayerType::Neural => "neural",
        }
    }
}

} // verus!
