pub mod encode;

pub use encode::{
    action_mask, action_mask_from_legals, action_to_id, all_line_definitions, can_player_win_with_card,
    LineDef, ACTION_SIZE, CARD_FEAT_DIM, OBS_SIZE,
};
