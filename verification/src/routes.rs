use vstd::prelude::*;

verus! {

/// The bytes of `GET`.
pub open spec fn get_bytes() -> Seq<u8> {
    seq![71u8, 69u8, 84u8]
}

fn get_lit() -> (r: [u8; 3])
    ensures
        r@ == get_bytes(),
{
    let r = [71u8, 69u8, 84u8];
    proof {
        assert(r@ =~= get_bytes());
    }
    r
}

/// The bytes of `POST`.
pub open spec fn post_bytes() -> Seq<u8> {
    seq![80u8, 79u8, 83u8, 84u8]
}

fn post_lit() -> (r: [u8; 4])
    ensures
        r@ == post_bytes(),
{
    let r = [80u8, 79u8, 83u8, 84u8];
    proof {
        assert(r@ =~= post_bytes());
    }
    r
}

/// The bytes of `HEAD`.
pub open spec fn head_bytes() -> Seq<u8> {
    seq![72u8, 69u8, 65u8, 68u8]
}

fn head_lit() -> (r: [u8; 4])
    ensures
        r@ == head_bytes(),
{
    let r = [72u8, 69u8, 65u8, 68u8];
    proof {
        assert(r@ =~= head_bytes());
    }
    r
}

/// The bytes of `/api/game/state`.
pub open spec fn game_state_bytes() -> Seq<u8> {
    seq![47u8, 97u8, 112u8, 105u8, 47u8, 103u8, 97u8, 109u8, 101u8, 47u8, 115u8, 116u8, 97u8, 116u8, 101u8]
}

fn game_state_lit() -> (r: [u8; 15])
    ensures
        r@ == game_state_bytes(),
{
    let r = [47u8, 97u8, 112u8, 105u8, 47u8, 103u8, 97u8, 109u8, 101u8, 47u8, 115u8, 116u8, 97u8, 116u8, 101u8];
    proof {
        assert(r@ =~= game_state_bytes());
    }
    r
}

/// The bytes of `/api/game/history`.
pub open spec fn game_history_bytes() -> Seq<u8> {
    seq![47u8, 97u8, 112u8, 105u8, 47u8, 103u8, 97u8, 109u8, 101u8, 47u8, 104u8, 105u8, 115u8, 116u8, 111u8, 114u8, 121u8]
}

fn game_history_lit() -> (r: [u8; 17])
    ensures
        r@ == game_history_bytes(),
{
    let r = [47u8, 97u8, 112u8, 105u8, 47u8, 103u8, 97u8, 109u8, 101u8, 47u8, 104u8, 105u8, 115u8, 116u8, 111u8, 114u8, 121u8];
    proof {
        assert(r@ =~= game_history_bytes());
    }
    r
}

/// The bytes of `/api/game/step`.
pub open spec fn game_step_bytes() -> Seq<u8> {
    seq![47u8, 97u8, 112u8, 105u8, 47u8, 103u8, 97u8, 109u8, 101u8, 47u8, 115u8, 116u8, 101u8, 112u8]
}

fn game_step_lit() -> (r: [u8; 14])
    ensures
        r@ == game_step_bytes(),
{
    let r = [47u8, 97u8, 112u8, 105u8, 47u8, 103u8, 97u8, 109u8, 101u8, 47u8, 115u8, 116u8, 101u8, 112u8];
    proof {
        assert(r@ =~= game_step_bytes());
    }
    r
}

/// The bytes of `/api/game/action`.
pub open spec fn game_action_bytes() -> Seq<u8> {
    seq![47u8, 97u8, 112u8, 105u8, 47u8, 103u8, 97u8, 109u8, 101u8, 47u8, 97u8, 99u8, 116u8, 105u8, 111u8, 110u8]
}

fn game_action_lit() -> (r: [u8; 16])
    ensures
        r@ == game_action_bytes(),
{
    let r = [47u8, 97u8, 112u8, 105u8, 47u8, 103u8, 97u8, 109u8, 101u8, 47u8, 97u8, 99u8, 116u8, 105u8, 111u8, 110u8];
    proof {
        assert(r@ =~= game_action_bytes());
    }
    r
}

/// The bytes of `/api/game/ai_step`.
pub open spec fn game_ai_step_bytes() -> Seq<u8> {
    seq![47u8, 97u8, 112u8, 105u8, 47u8, 103u8, 97u8, 109u8, 101u8, 47u8, 97u8, 105u8, 95u8, 115u8, 116u8, 101u8, 112u8]
}

fn game_ai_step_lit() -> (r: [u8; 17])
    ensures
        r@ == game_ai_step_bytes(),
{
    let r = [47u8, 97u8, 112u8, 105u8, 47u8, 103u8, 97u8, 109u8, 101u8, 47u8, 97u8, 105u8, 95u8, 115u8, 116u8, 101u8, 112u8];
    proof {
        assert(r@ =~= game_ai_step_bytes());
    }
    r
}

/// The bytes of `/api/game/reset`.
pub open spec fn game_reset_bytes() -> Seq<u8> {
    seq![47u8, 97u8, 112u8, 105u8, 47u8, 103u8, 97u8, 109u8, 101u8, 47u8, 114u8, 101u8, 115u8, 101u8, 116u8]
}

fn game_reset_lit() -> (r: [u8; 15])
    ensures
        r@ == game_reset_bytes(),
{
    let r = [47u8, 97u8, 112u8, 105u8, 47u8, 103u8, 97u8, 109u8, 101u8, 47u8, 114u8, 101u8, 115u8, 101u8, 116u8];
    proof {
        assert(r@ =~= game_reset_bytes());
    }
    r
}

/// The bytes of `/api/game/new`.
pub open spec fn game_new_bytes() -> Seq<u8> {
    seq![47u8, 97u8, 112u8, 105u8, 47u8, 103u8, 97u8, 109u8, 101u8, 47u8, 110u8, 101u8, 119u8]
}

fn game_new_lit() -> (r: [u8; 13])
    ensures
        r@ == game_new_bytes(),
{
    let r = [47u8, 97u8, 112u8, 105u8, 47u8, 103u8, 97u8, 109u8, 101u8, 47u8, 110u8, 101u8, 119u8];
    proof {
        assert(r@ =~= game_new_bytes());
    }
    r
}

/// The bytes of `/api/game/to_replay`.
pub open spec fn game_to_replay_bytes() -> Seq<u8> {
    seq![47u8, 97u8, 112u8, 105u8, 47u8, 103u8, 97u8, 109u8, 101u8, 47u8, 116u8, 111u8, 95u8, 114u8, 101u8, 112u8, 108u8, 97u8, 121u8]
}

fn game_to_replay_lit() -> (r: [u8; 19])
    ensures
        r@ == game_to_replay_bytes(),
{
    let r = [47u8, 97u8, 112u8, 105u8, 47u8, 103u8, 97u8, 109u8, 101u8, 47u8, 116u8, 111u8, 95u8, 114u8, 101u8, 112u8, 108u8, 97u8, 121u8];
    proof {
        assert(r@ =~= game_to_replay_bytes());
    }
    r
}

/// The bytes of `/api/status`.
pub open spec fn status_bytes() -> Seq<u8> {
    seq![47u8, 97u8, 112u8, 105u8, 47u8, 115u8, 116u8, 97u8, 116u8, 117u8, 115u8]
}

fn status_lit() -> (r: [u8; 11])
    ensures
        r@ == status_bytes(),
{
    let r = [47u8, 97u8, 112u8, 105u8, 47u8, 115u8, 116u8, 97u8, 116u8, 117u8, 115u8];
    proof {
        assert(r@ =~= status_bytes());
    }
    r
}

/// The bytes of `/api/neural_status`.
pub open spec fn neural_status_bytes() -> Seq<u8> {
    seq![47u8, 97u8, 112u8, 105u8, 47u8, 110u8, 101u8, 117u8, 114u8, 97u8, 108u8, 95u8, 115u8, 116u8, 97u8, 116u8, 117u8, 115u8]
}

fn neural_status_lit() -> (r: [u8; 18])
    ensures
        r@ == neural_status_bytes(),
{
    let r = [47u8, 97u8, 112u8, 105u8, 47u8, 110u8, 101u8, 117u8, 114u8, 97u8, 108u8, 95u8, 115u8, 116u8, 97u8, 116u8, 117u8, 115u8];
    proof {
        assert(r@ =~= neural_status_bytes());
    }
    r
}

/// The bytes of `/api/neural_reload`.
pub open spec fn neural_reload_bytes() -> Seq<u8> {
    seq![47u8, 97u8, 112u8, 105u8, 47u8, 110u8, 101u8, 117u8, 114u8, 97u8, 108u8, 95u8, 114u8, 101u8, 108u8, 111u8, 97u8, 100u8]
}

fn neural_reload_lit() -> (r: [u8; 18])
    ensures
        r@ == neural_reload_bytes(),
{
    let r = [47u8, 97u8, 112u8, 105u8, 47u8, 110u8, 101u8, 117u8, 114u8, 97u8, 108u8, 95u8, 114u8, 101u8, 108u8, 111u8, 97u8, 100u8];
    proof {
        assert(r@ =~= neural_reload_bytes());
    }
    r
}

/// The bytes of `/api/step`.
pub open spec fn step_bytes() -> Seq<u8> {
    seq![47u8, 97u8, 112u8, 105u8, 47u8, 115u8, 116u8, 101u8, 112u8]
}

fn step_lit() -> (r: [u8; 9])
    ensures
        r@ == step_bytes(),
{
    let r = [47u8, 97u8, 112u8, 105u8, 47u8, 115u8, 116u8, 101u8, 112u8];
    proof {
        assert(r@ =~= step_bytes());
    }
    r
}

/// The bytes of `/api/step_next`.
pub open spec fn step_next_bytes() -> Seq<u8> {
    seq![47u8, 97u8, 112u8, 105u8, 47u8, 115u8, 116u8, 101u8, 112u8, 95u8, 110u8, 101u8, 120u8, 116u8]
}

fn step_next_lit() -> (r: [u8; 14])
    ensures
        r@ == step_next_bytes(),
{
    let r = [47u8, 97u8, 112u8, 105u8, 47u8, 115u8, 116u8, 101u8, 112u8, 95u8, 110u8, 101u8, 120u8, 116u8];
    proof {
        assert(r@ =~= step_next_bytes());
    }
    r
}

/// The bytes of `/api/play_to_end`.
pub open spec fn play_to_end_bytes() -> Seq<u8> {
    seq![47u8, 97u8, 112u8, 105u8, 47u8, 112u8, 108u8, 97u8, 121u8, 95u8, 116u8, 111u8, 95u8, 101u8, 110u8, 100u8]
}

fn play_to_end_lit() -> (r: [u8; 16])
    ensures
        r@ == play_to_end_bytes(),
{
    let r = [47u8, 97u8, 112u8, 105u8, 47u8, 112u8, 108u8, 97u8, 121u8, 95u8, 116u8, 111u8, 95u8, 101u8, 110u8, 100u8];
    proof {
        assert(r@ =~= play_to_end_bytes());
    }
    r
}

/// The bytes of `/api/set_players`.
pub open spec fn set_players_bytes() -> Seq<u8> {
    seq![47u8, 97u8, 112u8, 105u8, 47u8, 115u8, 101u8, 116u8, 95u8, 112u8, 108u8, 97u8, 121u8, 101u8, 114u8, 115u8]
}

fn set_players_lit() -> (r: [u8; 16])
    ensures
        r@ == set_players_bytes(),
{
    let r = [47u8, 97u8, 112u8, 105u8, 47u8, 115u8, 101u8, 116u8, 95u8, 112u8, 108u8, 97u8, 121u8, 101u8, 114u8, 115u8];
    proof {
        assert(r@ =~= set_players_bytes());
    }
    r
}

/// The bytes of `/api/reset`.
pub open spec fn reset_bytes() -> Seq<u8> {
    seq![47u8, 97u8, 112u8, 105u8, 47u8, 114u8, 101u8, 115u8, 101u8, 116u8]
}

fn reset_lit() -> (r: [u8; 10])
    ensures
        r@ == reset_bytes(),
{
    let r = [47u8, 97u8, 112u8, 105u8, 47u8, 114u8, 101u8, 115u8, 101u8, 116u8];
    proof {
        assert(r@ =~= reset_bytes());
    }
    r
}

/// The bytes of `/api/history`.
pub open spec fn history_bytes() -> Seq<u8> {
    seq![47u8, 97u8, 112u8, 105u8, 47u8, 104u8, 105u8, 115u8, 116u8, 111u8, 114u8, 121u8]
}

fn history_lit() -> (r: [u8; 12])
    ensures
        r@ == history_bytes(),
{
    let r = [47u8, 97u8, 112u8, 105u8, 47u8, 104u8, 105u8, 115u8, 116u8, 111u8, 114u8, 121u8];
    proof {
        assert(r@ =~= history_bytes());
    }
    r
}

/// The bytes of `index`.
pub open spec fn k_index_bytes() -> Seq<u8> {
    seq![105u8, 110u8, 100u8, 101u8, 120u8]
}

fn k_index_lit() -> (r: [u8; 5])
    ensures
        r@ == k_index_bytes(),
{
    let r = [105u8, 110u8, 100u8, 101u8, 120u8];
    proof {
        assert(r@ =~= k_index_bytes());
    }
    r
}

/// The bytes of `step`.
pub open spec fn k_step_bytes() -> Seq<u8> {
    seq![115u8, 116u8, 101u8, 112u8]
}

fn k_step_lit() -> (r: [u8; 4])
    ensures
        r@ == k_step_bytes(),
{
    let r = [115u8, 116u8, 101u8, 112u8];
    proof {
        assert(r@ =~= k_step_bytes());
    }
    r
}

/// The bytes of `seed`.
pub open spec fn k_seed_bytes() -> Seq<u8> {
    seq![115u8, 101u8, 101u8, 100u8]
}

fn k_seed_lit() -> (r: [u8; 4])
    ensures
        r@ == k_seed_bytes(),
{
    let r = [115u8, 101u8, 101u8, 100u8];
    proof {
        assert(r@ =~= k_seed_bytes());
    }
    r
}

/// The bytes of `p0`.
pub open spec fn k_p0_bytes() -> Seq<u8> {
    seq![112u8, 48u8]
}

fn k_p0_lit() -> (r: [u8; 2])
    ensures
        r@ == k_p0_bytes(),
{
    let r = [112u8, 48u8];
    proof {
        assert(r@ =~= k_p0_bytes());
    }
    r
}

/// The bytes of `p1`.
pub open spec fn k_p1_bytes() -> Seq<u8> {
    seq![112u8, 49u8]
}

fn k_p1_lit() -> (r: [u8; 2])
    ensures
        r@ == k_p1_bytes(),
{
    let r = [112u8, 49u8];
    proof {
        assert(r@ =~= k_p1_bytes());
    }
    r
}

/// The bytes of `count`.
pub open spec fn k_count_bytes() -> Seq<u8> {
    seq![99u8, 111u8, 117u8, 110u8, 116u8]
}

fn k_count_lit() -> (r: [u8; 5])
    ensures
        r@ == k_count_bytes(),
{
    let r = [99u8, 111u8, 117u8, 110u8, 116u8];
    proof {
        assert(r@ =~= k_count_bytes());
    }
    r
}

/// The bytes of `play_to_end`.
pub open spec fn k_play_to_end_bytes() -> Seq<u8> {
    seq![112u8, 108u8, 97u8, 121u8, 95u8, 116u8, 111u8, 95u8, 101u8, 110u8, 100u8]
}

fn k_play_to_end_lit() -> (r: [u8; 11])
    ensures
        r@ == k_play_to_end_bytes(),
{
    let r = [112u8, 108u8, 97u8, 121u8, 95u8, 116u8, 111u8, 95u8, 101u8, 110u8, 100u8];
    proof {
        assert(r@ =~= k_play_to_end_bytes());
    }
    r
}

/// The bytes of `true`.
pub open spec fn v_true_bytes() -> Seq<u8> {
    seq![116u8, 114u8, 117u8, 101u8]
}

fn v_true_lit() -> (r: [u8; 4])
    ensures
        r@ == v_true_bytes(),
{
    let r = [116u8, 114u8, 117u8, 101u8];
    proof {
        assert(r@ =~= v_true_bytes());
    }
    r
}

/// The bytes of `1`.
pub open spec fn v_one_bytes() -> Seq<u8> {
    seq![49u8]
}

fn v_one_lit() -> (r: [u8; 1])
    ensures
        r@ == v_one_bytes(),
{
    let r = [49u8];
    proof {
        assert(r@ =~= v_one_bytes());
    }
    r
}
/// The bytes of `html`.
pub open spec fn ext_html_bytes() -> Seq<u8> {
    seq![104u8, 116u8, 109u8, 108u8]
}

fn ext_html_lit() -> (r: [u8; 4])
    ensures
        r@ == ext_html_bytes(),
{
    let r = [104u8, 116u8, 109u8, 108u8];
    proof {
        assert(r@ =~= ext_html_bytes());
    }
    r
}

/// The bytes of `js`.
pub open spec fn ext_js_bytes() -> Seq<u8> {
    seq![106u8, 115u8]
}

fn ext_js_lit() -> (r: [u8; 2])
    ensures
        r@ == ext_js_bytes(),
{
    let r = [106u8, 115u8];
    proof {
        assert(r@ =~= ext_js_bytes());
    }
    r
}

/// The bytes of `css`.
pub open spec fn ext_css_bytes() -> Seq<u8> {
    seq![99u8, 115u8, 115u8]
}

fn ext_css_lit() -> (r: [u8; 3])
    ensures
        r@ == ext_css_bytes(),
{
    let r = [99u8, 115u8, 115u8];
    proof {
        assert(r@ =~= ext_css_bytes());
    }
    r
}

/// The bytes of `webp`.
pub open spec fn ext_webp_bytes() -> Seq<u8> {
    seq![119u8, 101u8, 98u8, 112u8]
}

fn ext_webp_lit() -> (r: [u8; 4])
    ensures
        r@ == ext_webp_bytes(),
{
    let r = [119u8, 101u8, 98u8, 112u8];
    proof {
        assert(r@ =~= ext_webp_bytes());
    }
    r
}

/// The bytes of `png`.
pub open spec fn ext_png_bytes() -> Seq<u8> {
    seq![112u8, 110u8, 103u8]
}

fn ext_png_lit() -> (r: [u8; 3])
    ensures
        r@ == ext_png_bytes(),
{
    let r = [112u8, 110u8, 103u8];
    proof {
        assert(r@ =~= ext_png_bytes());
    }
    r
}

/// The bytes of `jpg`.
pub open spec fn ext_jpg_bytes() -> Seq<u8> {
    seq![106u8, 112u8, 103u8]
}

fn ext_jpg_lit() -> (r: [u8; 3])
    ensures
        r@ == ext_jpg_bytes(),
{
    let r = [106u8, 112u8, 103u8];
    proof {
        assert(r@ =~= ext_jpg_bytes());
    }
    r
}

/// The bytes of `jpeg`.
pub open spec fn ext_jpeg_bytes() -> Seq<u8> {
    seq![106u8, 112u8, 101u8, 103u8]
}

fn ext_jpeg_lit() -> (r: [u8; 4])
    ensures
        r@ == ext_jpeg_bytes(),
{
    let r = [106u8, 112u8, 101u8, 103u8];
    proof {
        assert(r@ =~= ext_jpeg_bytes());
    }
    r
}

/// The bytes of `svg`.
pub open spec fn ext_svg_bytes() -> Seq<u8> {
    seq![115u8, 118u8, 103u8]
}

fn ext_svg_lit() -> (r: [u8; 3])
    ensures
        r@ == ext_svg_bytes(),
{
    let r = [115u8, 118u8, 103u8];
    proof {
        assert(r@ =~= ext_svg_bytes());
    }
    r
}

/// The bytes of `json`.
pub open spec fn ext_json_bytes() -> Seq<u8> {
    seq![106u8, 115u8, 111u8, 110u8]
}

fn ext_json_lit() -> (r: [u8; 4])
    ensures
        r@ == ext_json_bytes(),
{
    let r = [106u8, 115u8, 111u8, 110u8];
    proof {
        assert(r@ =~= ext_json_bytes());
    }
    r
}

/// The bytes of `/`.
pub open spec fn root_bytes() -> Seq<u8> {
    seq![47u8]
}

fn root_lit() -> (r: [u8; 1])
    ensures
        r@ == root_bytes(),
{
    let r = [47u8];
    proof {
        assert(r@ =~= root_bytes());
    }
    r
}

/// The bytes of `/index.html`.
pub open spec fn index_html_bytes() -> Seq<u8> {
    seq![47u8, 105u8, 110u8, 100u8, 101u8, 120u8, 46u8, 104u8, 116u8, 109u8, 108u8]
}

fn index_html_lit() -> (r: [u8; 11])
    ensures
        r@ == index_html_bytes(),
{
    let r = [47u8, 105u8, 110u8, 100u8, 101u8, 120u8, 46u8, 104u8, 116u8, 109u8, 108u8];
    proof {
        assert(r@ =~= index_html_bytes());
    }
    r
}

/// The bytes of `/play`.
pub open spec fn play_bytes() -> Seq<u8> {
    seq![47u8, 112u8, 108u8, 97u8, 121u8]
}

fn play_lit() -> (r: [u8; 5])
    ensures
        r@ == play_bytes(),
{
    let r = [47u8, 112u8, 108u8, 97u8, 121u8];
    proof {
        assert(r@ =~= play_bytes());
    }
    r
}

/// The bytes of `/play.html`.
pub open spec fn play_html_bytes() -> Seq<u8> {
    seq![47u8, 112u8, 108u8, 97u8, 121u8, 46u8, 104u8, 116u8, 109u8, 108u8]
}

fn play_html_lit() -> (r: [u8; 10])
    ensures
        r@ == play_html_bytes(),
{
    let r = [47u8, 112u8, 108u8, 97u8, 121u8, 46u8, 104u8, 116u8, 109u8, 108u8];
    proof {
        assert(r@ =~= play_html_bytes());
    }
    r
}

/// The bytes of `/replay`.
pub open spec fn replay_bytes() -> Seq<u8> {
    seq![47u8, 114u8, 101u8, 112u8, 108u8, 97u8, 121u8]
}

fn replay_lit() -> (r: [u8; 7])
    ensures
        r@ == replay_bytes(),
{
    let r = [47u8, 114u8, 101u8, 112u8, 108u8, 97u8, 121u8];
    proof {
        assert(r@ =~= replay_bytes());
    }
    r
}

// ---------------------------------------------------------------------------------------
// Scanning bytes
// ---------------------------------------------------------------------------------------

/// ASCII white space: space, tab, line feed, vertical tab, form feed, carriage return.
pub open spec fn is_ws(b: u8) -> bool {
    b == 32 || (9 <= b && b <= 13)
}

/// The first index in `i..e` holding `b`, or `e`.
pub open spec fn find_from(s: Seq<u8>, b: u8, i: int, e: int) -> int
    decreases e - i,
{
    if i >= e {
        e
    } else if s[i] == b {
        i
    } else {
        find_from(s, b, i + 1, e)
    }
}

/// The first index in `i..e` that is not white space, or `e`.
pub open spec fn skip_ws(s: Seq<u8>, i: int, e: int) -> int
    decreases e - i,
{
    if i >= e {
        e
    } else if is_ws(s[i]) {
        skip_ws(s, i + 1, e)
    } else {
        i
    }
}

/// The first index in `i..e` that is white space, or `e`.
pub open spec fn word_end(s: Seq<u8>, i: int, e: int) -> int
    decreases e - i,
{
    if i >= e {
        e
    } else if is_ws(s[i]) {
        i
    } else {
        word_end(s, i + 1, e)
    }
}

pub proof fn lemma_find_bounds(s: Seq<u8>, b: u8, i: int, e: int)
    requires
        i <= e,
    ensures
        i <= find_from(s, b, i, e) <= e,
    decreases e - i,
{
    if i < e && s[i] != b {
        lemma_find_bounds(s, b, i + 1, e);
    }
}

proof fn lemma_skip_bounds(s: Seq<u8>, i: int, e: int)
    requires
        i <= e,
    ensures
        i <= skip_ws(s, i, e) <= e,
    decreases e - i,
{
    if i < e && is_ws(s[i]) {
        lemma_skip_bounds(s, i + 1, e);
    }
}

proof fn lemma_word_bounds(s: Seq<u8>, i: int, e: int)
    requires
        i <= e,
    ensures
        i <= word_end(s, i, e) <= e,
    decreases e - i,
{
    if i < e && !is_ws(s[i]) {
        lemma_word_bounds(s, i + 1, e);
    }
}

/// The first index in `i..e` of `s` holding `b`, or `e`.
fn find_byte(s: &[u8], b: u8, i: usize, e: usize) -> (r: usize)
    requires
        i <= e <= s@.len(),
    ensures
        r == find_from(s@, b, i as int, e as int),
        i <= r <= e,
{
    let mut j = i;
    while j < e && s[j] != b
        invariant
            i <= j <= e,
            e <= s@.len(),
            find_from(s@, b, j as int, e as int) == find_from(s@, b, i as int, e as int),
        decreases e - j,
    {
        j = j + 1;
    }
    j
}

/// The first index in `i..e` of `s` that is not white space, or `e`.
fn skip_spaces(s: &[u8], i: usize, e: usize) -> (r: usize)
    requires
        i <= e <= s@.len(),
    ensures
        r == skip_ws(s@, i as int, e as int),
        i <= r <= e,
{
    let mut j = i;
    while j < e && (s[j] == 32 || (9 <= s[j] && s[j] <= 13))
        invariant
            i <= j <= e,
            e <= s@.len(),
            skip_ws(s@, j as int, e as int) == skip_ws(s@, i as int, e as int),
        decreases e - j,
    {
        j = j + 1;
    }
    j
}

/// The first index in `i..e` of `s` that is white space, or `e`.
fn word_stop(s: &[u8], i: usize, e: usize) -> (r: usize)
    requires
        i <= e <= s@.len(),
    ensures
        r == word_end(s@, i as int, e as int),
        i <= r <= e,
{
    let mut j = i;
    while j < e && !(s[j] == 32 || (9 <= s[j] && s[j] <= 13))
        invariant
            i <= j <= e,
            e <= s@.len(),
            word_end(s@, j as int, e as int) == word_end(s@, i as int, e as int),
        decreases e - j,
    {
        j = j + 1;
    }
    j
}

/// Whether `s[a..b]` reads `lit`.
fn range_eq(s: &[u8], a: usize, b: usize, lit: &[u8]) -> (r: bool)
    requires
        a <= b <= s@.len(),
    ensures
        r == (s@.subrange(a as int, b as int) == lit@),
{
    if b - a != lit.len() {
        proof {
            assert(s@.subrange(a as int, b as int).len() != lit@.len());
        }
        return false;
    }
    let mut k: usize = 0;
    while k < lit.len()
        invariant
            0 <= k <= lit@.len(),
            b - a == lit@.len(),
            a <= b <= s@.len(),
            forall|m: int| 0 <= m < k ==> s@[a + m] == lit@[m],
        decreases lit@.len() - k,
    {
        if s[a + k] != lit[k] {
            proof {
                assert(s@.subrange(a as int, b as int)[k as int] != lit@[k as int]);
            }
            return false;
        }
        k = k + 1;
    }
    proof {
        assert(s@.subrange(a as int, b as int) =~= lit@);
    }
    true
}

// ---------------------------------------------------------------------------------------
// Numbers
// ---------------------------------------------------------------------------------------

/// An ASCII digit.
pub open spec fn is_digit(b: u8) -> bool {
    48 <= b && b <= 57
}

/// The number the digits `s[i..j]` write in base ten.
pub open spec fn digits_value(s: Seq<u8>, i: int, j: int) -> nat
    decreases j - i,
{
    if j <= i {
        0
    } else {
        digits_value(s, i, j - 1) * 10 + (s[j - 1] - 48) as nat
    }
}

/// Whether `s[i..j]` holds digits only.
pub open spec fn all_digits(s: Seq<u8>, i: int, j: int) -> bool {
    forall|k: int| i <= k < j ==> is_digit(#[trigger] s[k])
}

/// What `u64::from_str` gives for `s`: an optional `+` then at least one digit, with a
/// value that fits; nothing otherwise.
pub open spec fn spec_parse_u64(s: Seq<u8>) -> Option<u64> {
    let d = if s.len() > 0 && s[0] == 43 { 1int } else { 0int };
    if d >= s.len() || !all_digits(s, d, s.len() as int) || digits_value(s, d, s.len() as int) > u64::MAX {
        None
    } else {
        Some(digits_value(s, d, s.len() as int) as u64)
    }
}

/// What `usize::from_str` gives for `s`.
pub open spec fn spec_parse_usize(s: Seq<u8>) -> Option<usize> {
    match spec_parse_u64(s) {
        Some(v) => if v <= usize::MAX {
            Some(v as usize)
        } else {
            None
        },
        None => None,
    }
}

/// More digits write a number at least as large.
proof fn lemma_digits_monotone(s: Seq<u8>, i: int, j: int, e: int)
    requires
        i <= j <= e,
    ensures
        digits_value(s, i, j) <= digits_value(s, i, e),
    decreases e - j,
{
    if j < e {
        lemma_digits_monotone(s, i, j, e - 1);
    }
}

/// Reads a number the way `u64::from_str` does.
pub fn parse_u64(s: &[u8]) -> (r: Option<u64>)
    ensures
        r == spec_parse_u64(s@),
{
    let n = s.len();
    let d: usize = if n > 0 && s[0] == 43 { 1 } else { 0 };
    if d >= n {
        return None;
    }
    let mut acc: u64 = 0;
    let mut j = d;
    while j < n
        invariant
            d <= j <= n,
            n == s@.len(),
            d < n,
            d == (if s@.len() > 0 && s@[0] == 43 { 1int } else { 0int }),
            all_digits(s@, d as int, j as int),
            acc == digits_value(s@, d as int, j as int),
        decreases n - j,
    {
        let c = s[j];
        if !(48 <= c && c <= 57) {
            return None;
        }
        proof {
            lemma_digits_monotone(s@, d as int, j as int + 1, n as int);
        }
        let digit = (c - 48) as u64;
        match acc.checked_mul(10) {
            Some(t) => match t.checked_add(digit) {
                Some(v) => {
                    acc = v;
                },
                None => {
                    return None;
                },
            },
            None => {
                proof {
                    assert(digits_value(s@, d as int, j as int + 1) >= acc * 10);
                }
                return None;
            },
        }
        j = j + 1;
    }
    Some(acc)
}

/// Reads a number the way `usize::from_str` does.
pub fn parse_usize(s: &[u8]) -> (r: Option<usize>)
    ensures
        r == spec_parse_usize(s@),
{
    match parse_u64(s) {
        Some(v) => if v <= usize::MAX as u64 {
            Some(v as usize)
        } else {
            None
        },
        None => None,
    }
}

// ---------------------------------------------------------------------------------------
// Query parameters
// ---------------------------------------------------------------------------------------

/// The value of the last parameter named `k1` or `k2` in the query `s[a..e]`, `acc` if
/// none: parameters are separated by `&`; a parameter without `=` has no value, and a
/// value ends at the next `=`.
pub open spec fn scan_param(s: Seq<u8>, a: int, e: int, k1: Seq<u8>, k2: Seq<u8>, acc: Option<Seq<u8>>) -> Option<Seq<u8>>
    decreases e - a,
{
    let seg = find_from(s, 38, a, e);
    let eq = find_from(s, 61, a, seg);
    let key = s.subrange(a, eq);
    let acc2 = if eq < seg && (key == k1 || key == k2) {
        Some(s.subrange(eq + 1, find_from(s, 61, eq + 1, seg)))
    } else {
        acc
    };
    if seg >= e {
        acc2
    } else {
        proof {
            if a <= e {
                lemma_find_bounds(s, 38, a, e);
            }
        }
        scan_param(s, seg + 1, e, k1, k2, acc2)
    }
}

/// Where in `s` the value of the last parameter named `k1` or `k2` of the query `s[a..e]`
/// lies.
fn param_range(s: &[u8], a: usize, e: usize, k1: &[u8], k2: &[u8]) -> (r: Option<(usize, usize)>)
    requires
        a <= e <= s@.len(),
    ensures
        match r {
            Some((x, y)) => x <= y <= s@.len() && scan_param(s@, a as int, e as int, k1@, k2@, None) == Some(
                s@.subrange(x as int, y as int),
            ),
            None => scan_param(s@, a as int, e as int, k1@, k2@, None) is None,
        },
{
    let mut acc: Option<(usize, usize)> = None;
    let mut i = a;
    loop
        invariant
            a <= i <= e,
            e <= s@.len(),
            acc matches Some((x, y)) ==> x <= y <= s@.len(),
            scan_param(s@, i as int, e as int, k1@, k2@, match acc {
                Some((x, y)) => Some(s@.subrange(x as int, y as int)),
                None => None,
            }) == scan_param(s@, a as int, e as int, k1@, k2@, None),
        ensures
            match acc {
                Some((x, y)) => x <= y <= s@.len() && scan_param(s@, a as int, e as int, k1@, k2@, None) == Some(
                    s@.subrange(x as int, y as int),
                ),
                None => scan_param(s@, a as int, e as int, k1@, k2@, None) is None,
            },
        decreases e - i,
    {
        let seg = find_byte(s, 38, i, e);
        let eq = find_byte(s, 61, i, seg);
        if eq < seg && (range_eq(s, i, eq, k1) || range_eq(s, i, eq, k2)) {
            let ve = find_byte(s, 61, eq + 1, seg);
            acc = Some((eq + 1, ve));
        }
        if seg >= e {
            break;
        }
        i = seg + 1;
    }
    acc
}

// ---------------------------------------------------------------------------------------
// Requests
// ---------------------------------------------------------------------------------------

/// End of the request line.
pub open spec fn line_end(s: Seq<u8>) -> int {
    find_from(s, 10, 0, s.len() as int)
}

/// Start and end of the method word of the request line.
pub open spec fn method_start(s: Seq<u8>) -> int {
    skip_ws(s, 0, line_end(s))
}

pub open spec fn method_end(s: Seq<u8>) -> int {
    word_end(s, method_start(s), line_end(s))
}

/// Start and end of the URL word of the request line.
pub open spec fn url_start(s: Seq<u8>) -> int {
    skip_ws(s, method_end(s), line_end(s))
}

pub open spec fn url_end(s: Seq<u8>) -> int {
    word_end(s, url_start(s), line_end(s))
}

/// The request line has fewer than two words.
pub open spec fn bad_request(s: Seq<u8>) -> bool {
    url_start(s) == url_end(s)
}

/// The method word.
pub open spec fn method_of(s: Seq<u8>) -> Seq<u8> {
    s.subrange(method_start(s), method_end(s))
}

/// Where the URL's `?` is, or the URL's end.
pub open spec fn query_mark(s: Seq<u8>) -> int {
    find_from(s, 63, url_start(s), url_end(s))
}

/// The path: the URL up to its first `?`.
pub open spec fn path_of(s: Seq<u8>) -> Seq<u8> {
    s.subrange(url_start(s), query_mark(s))
}

/// Where the query (after the `?`) starts.
pub open spec fn query_start(s: Seq<u8>) -> int {
    if query_mark(s) < url_end(s) {
        query_mark(s) + 1
    } else {
        url_end(s)
    }
}

/// The value of the last query parameter named `k1` or `k2`.
pub open spec fn query_param(s: Seq<u8>, k1: Seq<u8>, k2: Seq<u8>) -> Option<Seq<u8>> {
    scan_param(s, query_start(s), url_end(s), k1, k2, None)
}

/// A number parameter: its value read as a number, `default` when absent or unreadable.
pub open spec fn number_or(v: Option<Seq<u8>>, default: u64) -> u64 {
    match v {
        Some(x) => match spec_parse_u64(x) {
            Some(n) => n,
            None => default,
        },
        None => default,
    }
}

/// A count parameter: its value read as a count, `default` when absent or unreadable.
pub open spec fn count_or(v: Option<Seq<u8>>, default: usize) -> usize {
    match v {
        Some(x) => match spec_parse_usize(x) {
            Some(n) => n,
            None => default,
        },
        None => default,
    }
}

/// What an HTTP request asks of the game server.
#[derive(Debug, Clone, PartialEq, Eq)]
pub enum Route {
    /// The request line has fewer than two words.
    BadRequest,
    /// `GET /api/game/state`.
    GameState,
    /// `GET /api/game/history`.
    GameHistory,
    /// `GET /api/game/step`: the step numbered by the last `index` or `step` parameter
    /// (none when absent or unreadable: the latest step).
    GameStep { index: Option<usize> },
    /// `POST /api/game/action`: the action is in the body.
    GameAction,
    /// `GET` or `POST /api/game/ai_step`.
    GameAiStep,
    /// `GET` or `POST /api/game/reset`, `POST /api/game/new`: a seed (42 when absent or
    /// unreadable) and the texts naming the two players, if given.
    GameReset { seed: u64, p0: Option<Vec<u8>>, p1: Option<Vec<u8>> },
    /// `GET` or `POST /api/game/to_replay`.
    GameToReplay,
    /// `GET /api/status`.
    Status,
    /// `GET /api/neural_status`.
    NeuralStatus,
    /// `GET` or `POST /api/neural_reload`.
    NeuralReload,
    /// `POST /api/step`, `GET /api/step_next`: how many steps (1 when absent or
    /// unreadable).
    ReplayStepNext { count: usize },
    /// `GET` or `POST /api/play_to_end`.
    PlayToEnd,
    /// `GET` or `POST /api/set_players`: the texts naming the two player types, if given.
    SetPlayers { p0: Option<Vec<u8>>, p1: Option<Vec<u8>> },
    /// `GET` or `POST /api/reset`: a seed (42 by default), whether to play to the end
    /// (`play_to_end` is `true` or `1`), and the texts naming the two player types.
    ReplayReset { seed: u64, play_to_end: bool, p0: Option<Vec<u8>>, p1: Option<Vec<u8>> },
    /// `GET /api/step`: the replay step numbered by `index` (0 by default).
    ReplayStepAt { index: usize },
    /// `GET /api/history`.
    ReplayHistory,
    /// Any other `GET` or `HEAD`: a file under the web root (`head` for `HEAD`).
    Static { head: bool, path: Vec<u8> },
    /// Any other method.
    NotAllowed,
}

/// The bytes of an optional text.
pub open spec fn opt_bytes(v: Option<Vec<u8>>) -> Option<Seq<u8>> {
    match v {
        Some(x) => Some(x@),
        None => None,
    }
}

/// The method is `GET` and the path `p`.
pub open spec fn is_get(s: Seq<u8>, p: Seq<u8>) -> bool {
    method_of(s) == get_bytes() && path_of(s) == p
}

/// The method is `POST` and the path `p`.
pub open spec fn is_post(s: Seq<u8>, p: Seq<u8>) -> bool {
    method_of(s) == post_bytes() && path_of(s) == p
}

/// `r` is what the request `s` asks, the routes tried in this order.
pub open spec fn route_of(s: Seq<u8>, r: Route) -> bool {
    if bad_request(s) {
        r is BadRequest
    } else if is_get(s, game_state_bytes()) {
        r is GameState
    } else if is_get(s, game_history_bytes()) {
        r is GameHistory
    } else if is_get(s, game_step_bytes()) {
        r == Route::GameStep {
            index: match query_param(s, k_index_bytes(), k_step_bytes()) {
                Some(v) => spec_parse_usize(v),
                None => None,
            },
        }
    } else if is_post(s, game_action_bytes()) {
        r is GameAction
    } else if is_post(s, game_ai_step_bytes()) || is_get(s, game_ai_step_bytes()) {
        r is GameAiStep
    } else if is_post(s, game_reset_bytes()) || is_get(s, game_reset_bytes()) || is_post(s, game_new_bytes()) {
        r matches Route::GameReset { seed, p0, p1 } && seed == number_or(query_param(s, k_seed_bytes(), k_seed_bytes()), 42)
            && opt_bytes(p0) == query_param(s, k_p0_bytes(), k_p0_bytes())
            && opt_bytes(p1) == query_param(s, k_p1_bytes(), k_p1_bytes())
    } else if is_post(s, game_to_replay_bytes()) || is_get(s, game_to_replay_bytes()) {
        r is GameToReplay
    } else if is_get(s, status_bytes()) {
        r is Status
    } else if is_get(s, neural_status_bytes()) {
        r is NeuralStatus
    } else if is_post(s, neural_reload_bytes()) || is_get(s, neural_reload_bytes()) {
        r is NeuralReload
    } else if is_post(s, step_bytes()) || is_get(s, step_next_bytes()) {
        r == Route::ReplayStepNext { count: count_or(query_param(s, k_count_bytes(), k_count_bytes()), 1) }
    } else if is_post(s, play_to_end_bytes()) || is_get(s, play_to_end_bytes()) {
        r is PlayToEnd
    } else if is_post(s, set_players_bytes()) || is_get(s, set_players_bytes()) {
        r matches Route::SetPlayers { p0, p1 } && opt_bytes(p0) == query_param(s, k_p0_bytes(), k_p0_bytes())
            && opt_bytes(p1) == query_param(s, k_p1_bytes(), k_p1_bytes())
    } else if is_post(s, reset_bytes()) || is_get(s, reset_bytes()) {
        r matches Route::ReplayReset { seed, play_to_end, p0, p1 } && seed == number_or(
            query_param(s, k_seed_bytes(), k_seed_bytes()),
            42,
        ) && play_to_end == match query_param(s, k_play_to_end_bytes(), k_play_to_end_bytes()) {
            Some(v) => v == v_true_bytes() || v == v_one_bytes(),
            None => false,
        } && opt_bytes(p0) == query_param(s, k_p0_bytes(), k_p0_bytes()) && opt_bytes(p1) == query_param(
            s,
            k_p1_bytes(),
            k_p1_bytes(),
        )
    } else if is_get(s, step_bytes()) {
        r == Route::ReplayStepAt { index: count_or(query_param(s, k_index_bytes(), k_index_bytes()), 0) }
    } else if is_get(s, history_bytes()) {
        r is ReplayHistory
    } else if method_of(s) == get_bytes() || method_of(s) == head_bytes() {
        r matches Route::Static { head, path } && head == (method_of(s) == head_bytes()) && path@ == path_of(s)
    } else {
        r is NotAllowed
    }
}

/// The value of the last query parameter named `k1` or `k2`, copied out.
fn param_text(s: &[u8], a: usize, e: usize, k1: &[u8], k2: &[u8]) -> (r: Option<Vec<u8>>)
    requires
        a <= e <= s@.len(),
    ensures
        opt_bytes(r) == scan_param(s@, a as int, e as int, k1@, k2@, None),
{
    match param_range(s, a, e, k1, k2) {
        Some((x, y)) => Some(vstd::slice::slice_to_vec(vstd::slice::slice_subrange(s, x, y))),
        None => None,
    }
}

/// A number parameter, `default` when absent or unreadable.
fn param_number(s: &[u8], a: usize, e: usize, k: &[u8], default: u64) -> (r: u64)
    requires
        a <= e <= s@.len(),
    ensures
        r == number_or(scan_param(s@, a as int, e as int, k@, k@, None), default),
{
    match param_range(s, a, e, k, k) {
        Some((x, y)) => match parse_u64(vstd::slice::slice_subrange(s, x, y)) {
            Some(n) => n,
            None => default,
        },
        None => default,
    }
}

/// A count parameter, `default` when absent or unreadable.
fn param_count(s: &[u8], a: usize, e: usize, k1: &[u8], k2: &[u8], default: usize) -> (r: usize)
    requires
        a <= e <= s@.len(),
    ensures
        r == count_or(scan_param(s@, a as int, e as int, k1@, k2@, None), default),
{
    match param_range(s, a, e, k1, k2) {
        Some((x, y)) => match parse_usize(vstd::slice::slice_subrange(s, x, y)) {
            Some(n) => n,
            None => default,
        },
        None => default,
    }
}

/// Reads what an HTTP request asks: the method and URL are the first two words of the
/// request line, the path is the URL up to `?`, and the parameters come from the query
/// after it (see `route_of`).
pub fn parse_request(request: &[u8]) -> (r: Route)
    ensures
        route_of(request@, r),
{
    let s = request;
    let n = s.len();
    let le = find_byte(s, 10, 0, n);
    let m0 = skip_spaces(s, 0, le);
    let m1 = word_stop(s, m0, le);
    let u0 = skip_spaces(s, m1, le);
    let u1 = word_stop(s, u0, le);
    if u0 == u1 {
        return Route::BadRequest;
    }
    let qm = find_byte(s, 63, u0, u1);
    let qa = if qm < u1 { qm + 1 } else { u1 };
    let get = range_eq(s, m0, m1, &get_lit());
    let post = range_eq(s, m0, m1, &post_lit());
    let head = range_eq(s, m0, m1, &head_lit());
    if get && range_eq(s, u0, qm, &game_state_lit()) {
        return Route::GameState;
    }
    if get && range_eq(s, u0, qm, &game_history_lit()) {
        return Route::GameHistory;
    }
    if get && range_eq(s, u0, qm, &game_step_lit()) {
        let index = match param_range(s, qa, u1, &k_index_lit(), &k_step_lit()) {
            Some((x, y)) => parse_usize(vstd::slice::slice_subrange(s, x, y)),
            None => None,
        };
        return Route::GameStep { index };
    }
    if post && range_eq(s, u0, qm, &game_action_lit()) {
        return Route::GameAction;
    }
    if (post || get) && range_eq(s, u0, qm, &game_ai_step_lit()) {
        return Route::GameAiStep;
    }
    if ((post || get) && range_eq(s, u0, qm, &game_reset_lit())) || (post && range_eq(s, u0, qm, &game_new_lit())) {
        let seed = param_number(s, qa, u1, &k_seed_lit(), 42);
        let p0 = param_text(s, qa, u1, &k_p0_lit(), &k_p0_lit());
        let p1 = param_text(s, qa, u1, &k_p1_lit(), &k_p1_lit());
        return Route::GameReset { seed, p0, p1 };
    }
    if (post || get) && range_eq(s, u0, qm, &game_to_replay_lit()) {
        return Route::GameToReplay;
    }
    if get && range_eq(s, u0, qm, &status_lit()) {
        return Route::Status;
    }
    if get && range_eq(s, u0, qm, &neural_status_lit()) {
        return Route::NeuralStatus;
    }
    if (post || get) && range_eq(s, u0, qm, &neural_reload_lit()) {
        return Route::NeuralReload;
    }
    if (post && range_eq(s, u0, qm, &step_lit())) || (get && range_eq(s, u0, qm, &step_next_lit())) {
        let count = param_count(s, qa, u1, &k_count_lit(), &k_count_lit(), 1);
        return Route::ReplayStepNext { count };
    }
    if (post || get) && range_eq(s, u0, qm, &play_to_end_lit()) {
        return Route::PlayToEnd;
    }
    if (post || get) && range_eq(s, u0, qm, &set_players_lit()) {
        let p0 = param_text(s, qa, u1, &k_p0_lit(), &k_p0_lit());
        let p1 = param_text(s, qa, u1, &k_p1_lit(), &k_p1_lit());
        return Route::SetPlayers { p0, p1 };
    }
    if (post || get) && range_eq(s, u0, qm, &reset_lit()) {
        let seed = param_number(s, qa, u1, &k_seed_lit(), 42);
        let play_to_end = match param_range(s, qa, u1, &k_play_to_end_lit(), &k_play_to_end_lit()) {
            Some((x, y)) => range_eq(s, x, y, &v_true_lit()) || range_eq(s, x, y, &v_one_lit()),
            None => false,
        };
        let p0 = param_text(s, qa, u1, &k_p0_lit(), &k_p0_lit());
        let p1 = param_text(s, qa, u1, &k_p1_lit(), &k_p1_lit());
        return Route::ReplayReset { seed, play_to_end, p0, p1 };
    }
    if get && range_eq(s, u0, qm, &step_lit()) {
        let index = param_count(s, qa, u1, &k_index_lit(), &k_index_lit(), 0);
        return Route::ReplayStepAt { index };
    }
    if get && range_eq(s, u0, qm, &history_lit()) {
        return Route::ReplayHistory;
    }
    if get || head {
        let path = vstd::slice::slice_to_vec(vstd::slice::slice_subrange(s, u0, qm));
        return Route::Static { head, path };
    }
    Route::NotAllowed
}

// ---------------------------------------------------------------------------------------
// Static files
// ---------------------------------------------------------------------------------------

/// What a static path names.
#[derive(Debug, Clone, PartialEq, Eq)]
pub enum StaticTarget {
    /// `/`, `/index.html`, `/play` or `/play.html`: the game page.
    GamePage,
    /// `/replay`: the replay page.
    ReplayPage,
    /// Any other path: the file it names, without its leading slashes.
    File(Vec<u8>),
}

/// The first index from `i` on that is not `/`.
pub open spec fn skip_slashes(s: Seq<u8>, i: int) -> int
    decreases s.len() - i,
{
    if i >= s.len() {
        s.len() as int
    } else if s[i] == 47 {
        skip_slashes(s, i + 1)
    } else {
        i
    }
}

/// The target of a static path.
pub open spec fn target_of(path: Seq<u8>, r: StaticTarget) -> bool {
    if path == root_bytes() || path == index_html_bytes() || path == play_bytes() || path == play_html_bytes() {
        r is GamePage
    } else if path == replay_bytes() {
        r is ReplayPage
    } else {
        r matches StaticTarget::File(f) && f@ == path.subrange(skip_slashes(path, 0), path.len() as int)
    }
}

/// Which page or file a static path names.
pub fn static_target(path: &[u8]) -> (r: StaticTarget)
    ensures
        target_of(path@, r),
{
    let n = path.len();
    if range_eq(path, 0, n, &root_lit()) || range_eq(path, 0, n, &index_html_lit()) || range_eq(
        path,
        0,
        n,
        &play_lit(),
    ) || range_eq(path, 0, n, &play_html_lit()) {
        proof {
            assert(path@.subrange(0, n as int) =~= path@);
        }
        return StaticTarget::GamePage;
    }
    proof {
        assert(path@.subrange(0, n as int) =~= path@);
    }
    if range_eq(path, 0, n, &replay_lit()) {
        return StaticTarget::ReplayPage;
    }
    let mut i: usize = 0;
    while i < n && path[i] == 47
        invariant
            0 <= i <= n,
            n == path@.len(),
            skip_slashes(path@, i as int) == skip_slashes(path@, 0),
        decreases n - i,
    {
        i = i + 1;
    }
    StaticTarget::File(vstd::slice::slice_to_vec(vstd::slice::slice_subrange(path, i, n)))
}

/// The content type served for a file extension.
pub open spec fn spec_content_type(ext: Seq<u8>) -> Seq<char> {
    if ext == ext_html_bytes() {
        "text/html; charset=utf-8"@
    } else if ext == ext_js_bytes() {
        "application/javascript; charset=utf-8"@
    } else if ext == ext_css_bytes() {
        "text/css; charset=utf-8"@
    } else if ext == ext_webp_bytes() {
        "image/webp"@
    } else if ext == ext_png_bytes() {
        "image/png"@
    } else if ext == ext_jpg_bytes() || ext == ext_jpeg_bytes() {
        "image/jpeg"@
    } else if ext == ext_svg_bytes() {
        "image/svg+xml"@
    } else if ext == ext_json_bytes() {
        "application/json"@
    } else {
        "application/octet-stream"@
    }
}

/// The content type served for a file extension.
pub fn content_type(ext: &[u8]) -> (r: &'static str)
    ensures
        r@ == spec_content_type(ext@),
{
    let n = ext.len();
    proof {
        assert(ext@.subrange(0, n as int) =~= ext@);
    }
    if range_eq(ext, 0, n, &ext_html_lit()) {
        "text/html; charset=utf-8"
    } else if range_eq(ext, 0, n, &ext_js_lit()) {
        "application/javascript; charset=utf-8"
    } else if range_eq(ext, 0, n, &ext_css_lit()) {
        "text/css; charset=utf-8"
    } else if range_eq(ext, 0, n, &ext_webp_lit()) {
        "image/webp"
    } else if range_eq(ext, 0, n, &ext_png_lit()) {
        "image/png"
    } else if range_eq(ext, 0, n, &ext_jpg_lit()) || range_eq(ext, 0, n, &ext_jpeg_lit()) {
        "image/jpeg"
    } else if range_eq(ext, 0, n, &ext_svg_lit()) {
        "image/svg+xml"
    } else if range_eq(ext, 0, n, &ext_json_lit()) {
        "application/json"
    } else {
        "application/octet-stream"
    }
}

} // verus!
