//! GitHub-style `:shortcode:` emoji: the shortcode table and the
//! replacement pass run over markdown source before rendering.

use vstd::prelude::*;

use crate::text;
use crate::text::{chars_of, chars_start_with, lines_of, push_char, push_str, skip_ws, str_eq, string_from_chars};

verus! {

/// The view of an optional string.
pub open spec fn opt_view(r: Option<&str>) -> Option<Seq<char>> {
    match r {
        Some(s) => Some(s@),
        None => None,
    }
}

/// `a` if it is present, else `b`.
pub open spec fn or_else(a: Option<Seq<char>>, b: Option<Seq<char>>) -> Option<Seq<char>> {
    if a is Some {
        a
    } else {
        b
    }
}

/// Shortcodes of the reactions / approval group.
pub open spec fn reaction_emoji(n: Seq<char>) -> Option<Seq<char>> {
    if n == "+1"@ || n == "thumbsup"@ {
        Some("👍"@)
    } else if n == "-1"@ || n == "thumbsdown"@ {
        Some("👎"@)
    } else if n == "tada"@ {
        Some("🎉"@)
    } else if n == "rocket"@ {
        Some("🚀"@)
    } else if n == "fire"@ {
        Some("🔥"@)
    } else if n == "sparkles"@ {
        Some("✨"@)
    } else if n == "100"@ {
        Some("💯"@)
    } else if n == "ok_hand"@ {
        Some("👌"@)
    } else if n == "clap"@ {
        Some("👏"@)
    } else if n == "wave"@ {
        Some("👋"@)
    } else if n == "pray"@ {
        Some("🙏"@)
    } else if n == "muscle"@ {
        Some("💪"@)
    } else if n == "raised_hands"@ {
        Some("🙌"@)
    } else if n == "handshake"@ {
        Some("🤝"@)
    } else if n == "heart"@ {
        Some("❤️"@)
    } else if n == "broken_heart"@ {
        Some("💔"@)
    } else if n == "heart_eyes"@ {
        Some("😍"@)
    } else if n == "eyes"@ {
        Some("👀"@)
    } else if n == "brain"@ {
        Some("🧠"@)
    } else {
        None
    }
}

fn lookup_reaction(name: &str) -> (r: Option<&'static str>)
    ensures
        opt_view(r) == reaction_emoji(name@),
{
    if str_eq(name, "+1") || str_eq(name, "thumbsup") {
        Some("👍")
    } else if str_eq(name, "-1") || str_eq(name, "thumbsdown") {
        Some("👎")
    } else if str_eq(name, "tada") {
        Some("🎉")
    } else if str_eq(name, "rocket") {
        Some("🚀")
    } else if str_eq(name, "fire") {
        Some("🔥")
    } else if str_eq(name, "sparkles") {
        Some("✨")
    } else if str_eq(name, "100") {
        Some("💯")
    } else if str_eq(name, "ok_hand") {
        Some("👌")
    } else if str_eq(name, "clap") {
        Some("👏")
    } else if str_eq(name, "wave") {
        Some("👋")
    } else if str_eq(name, "pray") {
        Some("🙏")
    } else if str_eq(name, "muscle") {
        Some("💪")
    } else if str_eq(name, "raised_hands") {
        Some("🙌")
    } else if str_eq(name, "handshake") {
        Some("🤝")
    } else if str_eq(name, "heart") {
        Some("❤️")
    } else if str_eq(name, "broken_heart") {
        Some("💔")
    } else if str_eq(name, "heart_eyes") {
        Some("😍")
    } else if str_eq(name, "eyes") {
        Some("👀")
    } else if str_eq(name, "brain") {
        Some("🧠")
    } else {
        None
    }
}

/// Shortcodes of the status group.
pub open spec fn status_emoji(n: Seq<char>) -> Option<Seq<char>> {
    if n == "white_check_mark"@ {
        Some("✅"@)
    } else if n == "heavy_check_mark"@ {
        Some("✔️"@)
    } else if n == "x"@ {
        Some("❌"@)
    } else if n == "heavy_multiplication_x"@ {
        Some("✖️"@)
    } else if n == "warning"@ {
        Some("⚠️"@)
    } else if n == "exclamation"@ {
        Some("❗"@)
    } else if n == "question"@ {
        Some("❓"@)
    } else if n == "grey_exclamation"@ {
        Some("❕"@)
    } else if n == "grey_question"@ {
        Some("❔"@)
    } else if n == "bangbang"@ {
        Some("‼️"@)
    } else if n == "interrobang"@ {
        Some("⁉️"@)
    } else if n == "no_entry"@ {
        Some("⛔"@)
    } else if n == "no_entry_sign"@ {
        Some("🚫"@)
    } else if n == "construction"@ {
        Some("🚧"@)
    } else if n == "stop_sign"@ {
        Some("🛑"@)
    } else {
        None
    }
}

fn lookup_status(name: &str) -> (r: Option<&'static str>)
    ensures
        opt_view(r) == status_emoji(name@),
{
    if str_eq(name, "white_check_mark") {
        Some("✅")
    } else if str_eq(name, "heavy_check_mark") {
        Some("✔️")
    } else if str_eq(name, "x") {
        Some("❌")
    } else if str_eq(name, "heavy_multiplication_x") {
        Some("✖️")
    } else if str_eq(name, "warning") {
        Some("⚠️")
    } else if str_eq(name, "exclamation") {
        Some("❗")
    } else if str_eq(name, "question") {
        Some("❓")
    } else if str_eq(name, "grey_exclamation") {
        Some("❕")
    } else if str_eq(name, "grey_question") {
        Some("❔")
    } else if str_eq(name, "bangbang") {
        Some("‼️")
    } else if str_eq(name, "interrobang") {
        Some("⁉️")
    } else if str_eq(name, "no_entry") {
        Some("⛔")
    } else if str_eq(name, "no_entry_sign") {
        Some("🚫")
    } else if str_eq(name, "construction") {
        Some("🚧")
    } else if str_eq(name, "stop_sign") {
        Some("🛑")
    } else {
        None
    }
}

/// Shortcodes of the faces group.
pub open spec fn face_emoji(n: Seq<char>) -> Option<Seq<char>> {
    if n == "smile"@ {
        Some("😄"@)
    } else if n == "smiley"@ {
        Some("😃"@)
    } else if n == "grin"@ {
        Some("😁"@)
    } else if n == "grinning"@ {
        Some("😀"@)
    } else if n == "joy"@ {
        Some("😂"@)
    } else if n == "rofl"@ {
        Some("🤣"@)
    } else if n == "laughing"@ {
        Some("😆"@)
    } else if n == "sweat_smile"@ {
        Some("😅"@)
    } else if n == "wink"@ {
        Some("😉"@)
    } else if n == "blush"@ {
        Some("😊"@)
    } else if n == "innocent"@ {
        Some("😇"@)
    } else if n == "thinking"@ {
        Some("🤔"@)
    } else if n == "neutral_face"@ {
        Some("😐"@)
    } else if n == "expressionless"@ {
        Some("😑"@)
    } else if n == "no_mouth"@ {
        Some("😶"@)
    } else if n == "smirk"@ {
        Some("😏"@)
    } else if n == "unamused"@ {
        Some("😒"@)
    } else if n == "roll_eyes"@ {
        Some("🙄"@)
    } else if n == "grimacing"@ {
        Some("😬"@)
    } else if n == "face_with_raised_eyebrow"@ {
        Some("🤨"@)
    } else if n == "confused"@ {
        Some("😕"@)
    } else if n == "worried"@ {
        Some("😟"@)
    } else if n == "frowning"@ {
        Some("😦"@)
    } else if n == "anguished"@ {
        Some("😧"@)
    } else if n == "open_mouth"@ {
        Some("😮"@)
    } else if n == "hushed"@ {
        Some("😯"@)
    } else if n == "astonished"@ {
        Some("😲"@)
    } else if n == "scream"@ {
        Some("😱"@)
    } else if n == "tired_face"@ {
        Some("😫"@)
    } else if n == "weary"@ {
        Some("😩"@)
    } else if n == "sleepy"@ {
        Some("😪"@)
    } else if n == "sleeping"@ {
        Some("😴"@)
    } else if n == "yum"@ {
        Some("😋"@)
    } else if n == "stuck_out_tongue"@ {
        Some("😛"@)
    } else if n == "stuck_out_tongue_winking_eye"@ {
        Some("😜"@)
    } else if n == "zany_face"@ {
        Some("🤪"@)
    } else if n == "face_with_hand_over_mouth"@ {
        Some("🤭"@)
    } else if n == "shushing_face"@ {
        Some("🤫"@)
    } else if n == "face_with_monocle"@ {
        Some("🧐"@)
    } else if n == "nerd_face"@ {
        Some("🤓"@)
    } else if n == "sunglasses"@ {
        Some("😎"@)
    } else if n == "star_struck"@ {
        Some("🤩"@)
    } else if n == "partying_face"@ {
        Some("🥳"@)
    } else if n == "cry"@ {
        Some("😢"@)
    } else if n == "sob"@ {
        Some("😭"@)
    } else if n == "rage"@ {
        Some("😡"@)
    } else if n == "angry"@ {
        Some("😠"@)
    } else if n == "triumph"@ {
        Some("😤"@)
    } else if n == "imp"@ {
        Some("👿"@)
    } else if n == "smiling_imp"@ {
        Some("😈"@)
    } else if n == "skull"@ {
        Some("💀"@)
    } else if n == "skull_and_crossbones"@ {
        Some("☠️"@)
    } else if n == "alien"@ {
        Some("👽"@)
    } else if n == "robot"@ {
        Some("🤖"@)
    } else if n == "ghost"@ {
        Some("👻"@)
    } else {
        None
    }
}

fn lookup_face(name: &str) -> (r: Option<&'static str>)
    ensures
        opt_view(r) == face_emoji(name@),
{
    if str_eq(name, "smile") {
        Some("😄")
    } else if str_eq(name, "smiley") {
        Some("😃")
    } else if str_eq(name, "grin") {
        Some("😁")
    } else if str_eq(name, "grinning") {
        Some("😀")
    } else if str_eq(name, "joy") {
        Some("😂")
    } else if str_eq(name, "rofl") {
        Some("🤣")
    } else if str_eq(name, "laughing") {
        Some("😆")
    } else if str_eq(name, "sweat_smile") {
        Some("😅")
    } else if str_eq(name, "wink") {
        Some("😉")
    } else if str_eq(name, "blush") {
        Some("😊")
    } else if str_eq(name, "innocent") {
        Some("😇")
    } else if str_eq(name, "thinking") {
        Some("🤔")
    } else if str_eq(name, "neutral_face") {
        Some("😐")
    } else if str_eq(name, "expressionless") {
        Some("😑")
    } else if str_eq(name, "no_mouth") {
        Some("😶")
    } else if str_eq(name, "smirk") {
        Some("😏")
    } else if str_eq(name, "unamused") {
        Some("😒")
    } else if str_eq(name, "roll_eyes") {
        Some("🙄")
    } else if str_eq(name, "grimacing") {
        Some("😬")
    } else if str_eq(name, "face_with_raised_eyebrow") {
        Some("🤨")
    } else if str_eq(name, "confused") {
        Some("😕")
    } else if str_eq(name, "worried") {
        Some("😟")
    } else if str_eq(name, "frowning") {
        Some("😦")
    } else if str_eq(name, "anguished") {
        Some("😧")
    } else if str_eq(name, "open_mouth") {
        Some("😮")
    } else if str_eq(name, "hushed") {
        Some("😯")
    } else if str_eq(name, "astonished") {
        Some("😲")
    } else if str_eq(name, "scream") {
        Some("😱")
    } else if str_eq(name, "tired_face") {
        Some("😫")
    } else if str_eq(name, "weary") {
        Some("😩")
    } else if str_eq(name, "sleepy") {
        Some("😪")
    } else if str_eq(name, "sleeping") {
        Some("😴")
    } else if str_eq(name, "yum") {
        Some("😋")
    } else if str_eq(name, "stuck_out_tongue") {
        Some("😛")
    } else if str_eq(name, "stuck_out_tongue_winking_eye") {
        Some("😜")
    } else if str_eq(name, "zany_face") {
        Some("🤪")
    } else if str_eq(name, "face_with_hand_over_mouth") {
        Some("🤭")
    } else if str_eq(name, "shushing_face") {
        Some("🤫")
    } else if str_eq(name, "face_with_monocle") {
        Some("🧐")
    } else if str_eq(name, "nerd_face") {
        Some("🤓")
    } else if str_eq(name, "sunglasses") {
        Some("😎")
    } else if str_eq(name, "star_struck") {
        Some("🤩")
    } else if str_eq(name, "partying_face") {
        Some("🥳")
    } else if str_eq(name, "cry") {
        Some("😢")
    } else if str_eq(name, "sob") {
        Some("😭")
    } else if str_eq(name, "rage") {
        Some("😡")
    } else if str_eq(name, "angry") {
        Some("😠")
    } else if str_eq(name, "triumph") {
        Some("😤")
    } else if str_eq(name, "imp") {
        Some("👿")
    } else if str_eq(name, "smiling_imp") {
        Some("😈")
    } else if str_eq(name, "skull") {
        Some("💀")
    } else if str_eq(name, "skull_and_crossbones") {
        Some("☠️")
    } else if str_eq(name, "alien") {
        Some("👽")
    } else if str_eq(name, "robot") {
        Some("🤖")
    } else if str_eq(name, "ghost") {
        Some("👻")
    } else {
        None
    }
}

/// Shortcodes of the tech / build group.
pub open spec fn tech_emoji(n: Seq<char>) -> Option<Seq<char>> {
    if n == "computer"@ {
        Some("💻"@)
    } else if n == "desktop_computer"@ {
        Some("🖥️"@)
    } else if n == "keyboard"@ {
        Some("⌨️"@)
    } else if n == "mouse"@ {
        Some("🖱️"@)
    } else if n == "iphone"@ {
        Some("📱"@)
    } else if n == "phone"@ || n == "telephone"@ {
        Some("☎️"@)
    } else if n == "package"@ {
        Some("📦"@)
    } else if n == "memo"@ || n == "pencil"@ {
        Some("📝"@)
    } else if n == "pencil2"@ {
        Some("✏️"@)
    } else if n == "bulb"@ {
        Some("💡"@)
    } else if n == "wrench"@ {
        Some("🔧"@)
    } else if n == "hammer"@ {
        Some("🔨"@)
    } else if n == "hammer_and_wrench"@ {
        Some("🛠️"@)
    } else if n == "gear"@ {
        Some("⚙️"@)
    } else if n == "nut_and_bolt"@ {
        Some("🔩"@)
    } else if n == "bug"@ {
        Some("🐛"@)
    } else if n == "lock"@ {
        Some("🔒"@)
    } else if n == "unlock"@ {
        Some("🔓"@)
    } else if n == "key"@ {
        Some("🔑"@)
    } else if n == "shield"@ {
        Some("🛡️"@)
    } else if n == "satellite"@ {
        Some("🛰️"@)
    } else if n == "zap"@ {
        Some("⚡"@)
    } else if n == "boom"@ {
        Some("💥"@)
    } else if n == "bomb"@ {
        Some("💣"@)
    } else if n == "link"@ {
        Some("🔗"@)
    } else if n == "paperclip"@ {
        Some("📎"@)
    } else if n == "books"@ {
        Some("📚"@)
    } else if n == "book"@ {
        Some("📖"@)
    } else if n == "page_facing_up"@ {
        Some("📄"@)
    } else if n == "scroll"@ {
        Some("📜"@)
    } else if n == "clipboard"@ {
        Some("📋"@)
    } else if n == "calendar"@ {
        Some("📅"@)
    } else if n == "stopwatch"@ {
        Some("⏱️"@)
    } else if n == "alarm_clock"@ {
        Some("⏰"@)
    } else if n == "hourglass"@ {
        Some("⌛"@)
    } else if n == "hourglass_flowing_sand"@ {
        Some("⏳"@)
    } else {
        None
    }
}

fn lookup_tech(name: &str) -> (r: Option<&'static str>)
    ensures
        opt_view(r) == tech_emoji(name@),
{
    if str_eq(name, "computer") {
        Some("💻")
    } else if str_eq(name, "desktop_computer") {
        Some("🖥️")
    } else if str_eq(name, "keyboard") {
        Some("⌨️")
    } else if str_eq(name, "mouse") {
        Some("🖱️")
    } else if str_eq(name, "iphone") {
        Some("📱")
    } else if str_eq(name, "phone") || str_eq(name, "telephone") {
        Some("☎️")
    } else if str_eq(name, "package") {
        Some("📦")
    } else if str_eq(name, "memo") || str_eq(name, "pencil") {
        Some("📝")
    } else if str_eq(name, "pencil2") {
        Some("✏️")
    } else if str_eq(name, "bulb") {
        Some("💡")
    } else if str_eq(name, "wrench") {
        Some("🔧")
    } else if str_eq(name, "hammer") {
        Some("🔨")
    } else if str_eq(name, "hammer_and_wrench") {
        Some("🛠️")
    } else if str_eq(name, "gear") {
        Some("⚙️")
    } else if str_eq(name, "nut_and_bolt") {
        Some("🔩")
    } else if str_eq(name, "bug") {
        Some("🐛")
    } else if str_eq(name, "lock") {
        Some("🔒")
    } else if str_eq(name, "unlock") {
        Some("🔓")
    } else if str_eq(name, "key") {
        Some("🔑")
    } else if str_eq(name, "shield") {
        Some("🛡️")
    } else if str_eq(name, "satellite") {
        Some("🛰️")
    } else if str_eq(name, "zap") {
        Some("⚡")
    } else if str_eq(name, "boom") {
        Some("💥")
    } else if str_eq(name, "bomb") {
        Some("💣")
    } else if str_eq(name, "link") {
        Some("🔗")
    } else if str_eq(name, "paperclip") {
        Some("📎")
    } else if str_eq(name, "books") {
        Some("📚")
    } else if str_eq(name, "book") {
        Some("📖")
    } else if str_eq(name, "page_facing_up") {
        Some("📄")
    } else if str_eq(name, "scroll") {
        Some("📜")
    } else if str_eq(name, "clipboard") {
        Some("📋")
    } else if str_eq(name, "calendar") {
        Some("📅")
    } else if str_eq(name, "stopwatch") {
        Some("⏱️")
    } else if str_eq(name, "alarm_clock") {
        Some("⏰")
    } else if str_eq(name, "hourglass") {
        Some("⌛")
    } else if str_eq(name, "hourglass_flowing_sand") {
        Some("⏳")
    } else {
        None
    }
}

/// Shortcodes of the visual cue group.
pub open spec fn cue_emoji(n: Seq<char>) -> Option<Seq<char>> {
    if n == "star"@ {
        Some("⭐"@)
    } else if n == "star2"@ {
        Some("🌟"@)
    } else if n == "trophy"@ {
        Some("🏆"@)
    } else if n == "medal_sports"@ {
        Some("🏅"@)
    } else if n == "first_place_medal"@ {
        Some("🥇"@)
    } else if n == "second_place_medal"@ {
        Some("🥈"@)
    } else if n == "third_place_medal"@ {
        Some("🥉"@)
    } else if n == "crown"@ {
        Some("👑"@)
    } else if n == "gem"@ {
        Some("💎"@)
    } else if n == "moneybag"@ {
        Some("💰"@)
    } else if n == "dollar"@ {
        Some("💵"@)
    } else {
        None
    }
}

fn lookup_cue(name: &str) -> (r: Option<&'static str>)
    ensures
        opt_view(r) == cue_emoji(name@),
{
    if str_eq(name, "star") {
        Some("⭐")
    } else if str_eq(name, "star2") {
        Some("🌟")
    } else if str_eq(name, "trophy") {
        Some("🏆")
    } else if str_eq(name, "medal_sports") {
        Some("🏅")
    } else if str_eq(name, "first_place_medal") {
        Some("🥇")
    } else if str_eq(name, "second_place_medal") {
        Some("🥈")
    } else if str_eq(name, "third_place_medal") {
        Some("🥉")
    } else if str_eq(name, "crown") {
        Some("👑")
    } else if str_eq(name, "gem") {
        Some("💎")
    } else if str_eq(name, "moneybag") {
        Some("💰")
    } else if str_eq(name, "dollar") {
        Some("💵")
    } else {
        None
    }
}

/// Shortcodes of the arrows / pointers group.
pub open spec fn arrow_emoji(n: Seq<char>) -> Option<Seq<char>> {
    if n == "arrow_up"@ {
        Some("⬆️"@)
    } else if n == "arrow_down"@ {
        Some("⬇️"@)
    } else if n == "arrow_left"@ {
        Some("⬅️"@)
    } else if n == "arrow_right"@ {
        Some("➡️"@)
    } else if n == "arrow_upper_right"@ {
        Some("↗️"@)
    } else if n == "arrow_lower_right"@ {
        Some("↘️"@)
    } else if n == "arrow_upper_left"@ {
        Some("↖️"@)
    } else if n == "arrow_lower_left"@ {
        Some("↙️"@)
    } else if n == "arrows_clockwise"@ {
        Some("🔃"@)
    } else if n == "arrows_counterclockwise"@ {
        Some("🔄"@)
    } else if n == "leftwards_arrow_with_hook"@ {
        Some("↩️"@)
    } else if n == "arrow_right_hook"@ {
        Some("↪️"@)
    } else if n == "point_up"@ {
        Some("☝️"@)
    } else if n == "point_down"@ {
        Some("👇"@)
    } else if n == "point_left"@ {
        Some("👈"@)
    } else if n == "point_right"@ {
        Some("👉"@)
    } else {
        None
    }
}

fn lookup_arrow(name: &str) -> (r: Option<&'static str>)
    ensures
        opt_view(r) == arrow_emoji(name@),
{
    if str_eq(name, "arrow_up") {
        Some("⬆️")
    } else if str_eq(name, "arrow_down") {
        Some("⬇️")
    } else if str_eq(name, "arrow_left") {
        Some("⬅️")
    } else if str_eq(name, "arrow_right") {
        Some("➡️")
    } else if str_eq(name, "arrow_upper_right") {
        Some("↗️")
    } else if str_eq(name, "arrow_lower_right") {
        Some("↘️")
    } else if str_eq(name, "arrow_upper_left") {
        Some("↖️")
    } else if str_eq(name, "arrow_lower_left") {
        Some("↙️")
    } else if str_eq(name, "arrows_clockwise") {
        Some("🔃")
    } else if str_eq(name, "arrows_counterclockwise") {
        Some("🔄")
    } else if str_eq(name, "leftwards_arrow_with_hook") {
        Some("↩️")
    } else if str_eq(name, "arrow_right_hook") {
        Some("↪️")
    } else if str_eq(name, "point_up") {
        Some("☝️")
    } else if str_eq(name, "point_down") {
        Some("👇")
    } else if str_eq(name, "point_left") {
        Some("👈")
    } else if str_eq(name, "point_right") {
        Some("👉")
    } else {
        None
    }
}

/// Shortcodes of the misc that show up a lot group.
pub open spec fn misc_emoji(n: Seq<char>) -> Option<Seq<char>> {
    if n == "coffee"@ {
        Some("☕"@)
    } else if n == "beer"@ {
        Some("🍺"@)
    } else if n == "pizza"@ {
        Some("🍕"@)
    } else if n == "poop"@ || n == "shit"@ || n == "hankey"@ {
        Some("💩"@)
    } else if n == "tada_party"@ {
        Some("🥳"@)
    } else if n == "balloon"@ {
        Some("🎈"@)
    } else if n == "gift"@ {
        Some("🎁"@)
    } else if n == "art"@ {
        Some("🎨"@)
    } else if n == "rainbow"@ {
        Some("🌈"@)
    } else if n == "sun"@ || n == "sunny"@ {
        Some("☀️"@)
    } else if n == "cloud"@ {
        Some("☁️"@)
    } else if n == "snowflake"@ {
        Some("❄️"@)
    } else if n == "umbrella"@ {
        Some("☂️"@)
    } else if n == "earth_americas"@ {
        Some("🌎"@)
    } else if n == "earth_africa"@ {
        Some("🌍"@)
    } else if n == "earth_asia"@ {
        Some("🌏"@)
    } else {
        None
    }
}

fn lookup_misc(name: &str) -> (r: Option<&'static str>)
    ensures
        opt_view(r) == misc_emoji(name@),
{
    if str_eq(name, "coffee") {
        Some("☕")
    } else if str_eq(name, "beer") {
        Some("🍺")
    } else if str_eq(name, "pizza") {
        Some("🍕")
    } else if str_eq(name, "poop") || str_eq(name, "shit") || str_eq(name, "hankey") {
        Some("💩")
    } else if str_eq(name, "tada_party") {
        Some("🥳")
    } else if str_eq(name, "balloon") {
        Some("🎈")
    } else if str_eq(name, "gift") {
        Some("🎁")
    } else if str_eq(name, "art") {
        Some("🎨")
    } else if str_eq(name, "rainbow") {
        Some("🌈")
    } else if str_eq(name, "sun") || str_eq(name, "sunny") {
        Some("☀️")
    } else if str_eq(name, "cloud") {
        Some("☁️")
    } else if str_eq(name, "snowflake") {
        Some("❄️")
    } else if str_eq(name, "umbrella") {
        Some("☂️")
    } else if str_eq(name, "earth_americas") {
        Some("🌎")
    } else if str_eq(name, "earth_africa") {
        Some("🌍")
    } else if str_eq(name, "earth_asia") {
        Some("🌏")
    } else {
        None
    }
}

/// Shortcodes of the animals group.
pub open spec fn animal_emoji(n: Seq<char>) -> Option<Seq<char>> {
    if n == "dog"@ {
        Some("🐶"@)
    } else if n == "cat"@ {
        Some("🐱"@)
    } else if n == "fox_face"@ {
        Some("🦊"@)
    } else if n == "lion"@ {
        Some("🦁"@)
    } else if n == "monkey"@ {
        Some("🐒"@)
    } else if n == "see_no_evil"@ {
        Some("🙈"@)
    } else if n == "hear_no_evil"@ {
        Some("🙉"@)
    } else if n == "speak_no_evil"@ {
        Some("🙊"@)
    } else if n == "panda_face"@ {
        Some("🐼"@)
    } else if n == "penguin"@ {
        Some("🐧"@)
    } else if n == "owl"@ {
        Some("🦉"@)
    } else if n == "snail"@ {
        Some("🐌"@)
    } else if n == "ant"@ {
        Some("🐜"@)
    } else if n == "honeybee"@ {
        Some("🐝"@)
    } else if n == "butterfly"@ {
        Some("🦋"@)
    } else if n == "octopus"@ {
        Some("🐙"@)
    } else {
        None
    }
}

fn lookup_animal(name: &str) -> (r: Option<&'static str>)
    ensures
        opt_view(r) == animal_emoji(name@),
{
    if str_eq(name, "dog") {
        Some("🐶")
    } else if str_eq(name, "cat") {
        Some("🐱")
    } else if str_eq(name, "fox_face") {
        Some("🦊")
    } else if str_eq(name, "lion") {
        Some("🦁")
    } else if str_eq(name, "monkey") {
        Some("🐒")
    } else if str_eq(name, "see_no_evil") {
        Some("🙈")
    } else if str_eq(name, "hear_no_evil") {
        Some("🙉")
    } else if str_eq(name, "speak_no_evil") {
        Some("🙊")
    } else if str_eq(name, "panda_face") {
        Some("🐼")
    } else if str_eq(name, "penguin") {
        Some("🐧")
    } else if str_eq(name, "owl") {
        Some("🦉")
    } else if str_eq(name, "snail") {
        Some("🐌")
    } else if str_eq(name, "ant") {
        Some("🐜")
    } else if str_eq(name, "honeybee") {
        Some("🐝")
    } else if str_eq(name, "butterfly") {
        Some("🦋")
    } else if str_eq(name, "octopus") {
        Some("🐙")
    } else {
        None
    }
}

/// Shortcodes of the plants / nature group.
pub open spec fn nature_emoji(n: Seq<char>) -> Option<Seq<char>> {
    if n == "seedling"@ {
        Some("🌱"@)
    } else if n == "evergreen_tree"@ {
        Some("🌲"@)
    } else if n == "deciduous_tree"@ {
        Some("🌳"@)
    } else if n == "palm_tree"@ {
        Some("🌴"@)
    } else if n == "cactus"@ {
        Some("🌵"@)
    } else if n == "herb"@ {
        Some("🌿"@)
    } else if n == "leaves"@ {
        Some("🍃"@)
    } else if n == "rose"@ {
        Some("🌹"@)
    } else if n == "cherry_blossom"@ {
        Some("🌸"@)
    } else if n == "sunflower"@ {
        Some("🌻"@)
    } else {
        None
    }
}

fn lookup_nature(name: &str) -> (r: Option<&'static str>)
    ensures
        opt_view(r) == nature_emoji(name@),
{
    if str_eq(name, "seedling") {
        Some("🌱")
    } else if str_eq(name, "evergreen_tree") {
        Some("🌲")
    } else if str_eq(name, "deciduous_tree") {
        Some("🌳")
    } else if str_eq(name, "palm_tree") {
        Some("🌴")
    } else if str_eq(name, "cactus") {
        Some("🌵")
    } else if str_eq(name, "herb") {
        Some("🌿")
    } else if str_eq(name, "leaves") {
        Some("🍃")
    } else if str_eq(name, "rose") {
        Some("🌹")
    } else if str_eq(name, "cherry_blossom") {
        Some("🌸")
    } else if str_eq(name, "sunflower") {
        Some("🌻")
    } else {
        None
    }
}

/// Shortcodes of the food group.
pub open spec fn food_emoji(n: Seq<char>) -> Option<Seq<char>> {
    if n == "apple"@ || n == "red_apple"@ {
        Some("🍎"@)
    } else if n == "banana"@ {
        Some("🍌"@)
    } else if n == "cake"@ {
        Some("🍰"@)
    } else if n == "cookie"@ {
        Some("🍪"@)
    } else if n == "doughnut"@ {
        Some("🍩"@)
    } else if n == "icecream"@ {
        Some("🍨"@)
    } else if n == "chocolate_bar"@ {
        Some("🍫"@)
    } else {
        None
    }
}

fn lookup_food(name: &str) -> (r: Option<&'static str>)
    ensures
        opt_view(r) == food_emoji(name@),
{
    if str_eq(name, "apple") || str_eq(name, "red_apple") {
        Some("🍎")
    } else if str_eq(name, "banana") {
        Some("🍌")
    } else if str_eq(name, "cake") {
        Some("🍰")
    } else if str_eq(name, "cookie") {
        Some("🍪")
    } else if str_eq(name, "doughnut") {
        Some("🍩")
    } else if str_eq(name, "icecream") {
        Some("🍨")
    } else if str_eq(name, "chocolate_bar") {
        Some("🍫")
    } else {
        None
    }
}

/// The emoji of a shortcode name (without the colons): a curated list of
/// the GitHub shortcodes common in issues, pull requests and READMEs.
pub open spec fn emoji_of(name: Seq<char>) -> Option<Seq<char>> {
    or_else(reaction_emoji(name), or_else(status_emoji(name), or_else(face_emoji(name), or_else(tech_emoji(name), or_else(cue_emoji(name), or_else(arrow_emoji(name), or_else(misc_emoji(name), or_else(animal_emoji(name), or_else(nature_emoji(name), food_emoji(name))))))))))
}

/// The emoji of a shortcode name (without the colons), if it is known.
pub fn lookup_emoji(name: &str) -> (r: Option<&'static str>)
    ensures
        opt_view(r) == emoji_of(name@),
{
    let r = lookup_reaction(name);
    if r.is_some() {
        return r;
    }
    let r = lookup_status(name);
    if r.is_some() {
        return r;
    }
    let r = lookup_face(name);
    if r.is_some() {
        return r;
    }
    let r = lookup_tech(name);
    if r.is_some() {
        return r;
    }
    let r = lookup_cue(name);
    if r.is_some() {
        return r;
    }
    let r = lookup_arrow(name);
    if r.is_some() {
        return r;
    }
    let r = lookup_misc(name);
    if r.is_some() {
        return r;
    }
    let r = lookup_animal(name);
    if r.is_some() {
        return r;
    }
    let r = lookup_nature(name);
    if r.is_some() {
        return r;
    }
    lookup_food(name)
}


/// A character that may appear in a shortcode name: ASCII letters and
/// digits, `_`, `+` and `-`.
pub open spec fn is_name_char(c: char) -> bool {
    ||| ('0' <= c && c <= '9')
    ||| ('a' <= c && c <= 'z')
    ||| ('A' <= c && c <= 'Z')
    ||| c == '_'
    ||| c == '+'
    ||| c == '-'
}

/// The end of the run of name characters in `cs` starting at `j`.
pub open spec fn name_end(cs: Seq<char>, j: int) -> int
    decreases cs.len() - j,
{
    if j < 0 || j >= cs.len() || !is_name_char(cs[j]) {
        j
    } else {
        name_end(cs, j + 1)
    }
}

/// `cs[i..]` with every `:name:` whose name is known replaced by its
/// emoji, scanning left to right.
pub open spec fn shortcodes_from(cs: Seq<char>, i: int) -> Seq<char>
    decreases cs.len() - i,
{
    if i < 0 || i >= cs.len() {
        seq![]
    } else if cs[i] == ':' {
        let j = name_end(cs, i + 1);
        if i + 1 < j < cs.len() && cs[j] == ':' && emoji_of(cs.subrange(i + 1, j)) is Some {
            emoji_of(cs.subrange(i + 1, j))->0 + shortcodes_from(cs, j + 1)
        } else {
            seq![':'] + shortcodes_from(cs, i + 1)
        }
    } else {
        seq![cs[i]] + shortcodes_from(cs, i + 1)
    }
}

/// A line with its known `:shortcode:`s replaced.
pub open spec fn with_shortcodes(line: Seq<char>) -> Seq<char> {
    shortcodes_from(line, 0)
}

proof fn lemma_name_end_bounds(cs: Seq<char>, j: int)
    requires
        0 <= j <= cs.len(),
    ensures
        j <= name_end(cs, j) <= cs.len(),
        forall|k: int| j <= k < name_end(cs, j) ==> is_name_char(#[trigger] cs[k]),
    decreases cs.len() - j,
{
    if j < cs.len() && is_name_char(cs[j]) {
        lemma_name_end_bounds(cs, j + 1);
    }
}

fn is_name_char_exec(c: char) -> (b: bool)
    ensures
        b == is_name_char(c),
{
    ('0' <= c && c <= '9') || ('a' <= c && c <= 'z') || ('A' <= c && c <= 'Z') || c == '_' || c == '+' || c == '-'
}

/// Replace `:shortcode:` spans on a single line. Inline code spans are
/// not tracked: a shortcode inside backticks is replaced too.
pub fn replace_shortcodes_in_line(line: &str) -> (out: String)
    ensures
        out@ == with_shortcodes(line@),
{
    let chars = chars_of(line);
    let n = chars.len();
    let ghost cs = chars@;
    let mut out = String::new();
    let mut i: usize = 0;
    while i < n
        invariant
            n == chars.len(),
            cs == chars@,
            cs == line@,
            i <= n,
            out@ + shortcodes_from(cs, i as int) == shortcodes_from(cs, 0),
        decreases n - i,
    {
        if chars[i] == ':' {
            let mut j = i + 1;
            while j < n && is_name_char_exec(chars[j])
                invariant
                    i < j <= n == chars.len(),
                    cs == chars@,
                    name_end(cs, j as int) == name_end(cs, i + 1),
                decreases n - j,
            {
                j = j + 1;
            }
            if j < n && chars[j] == ':' && j > i + 1 {
                let name = string_from_chars(&chars, i + 1, j);
                match lookup_emoji(name.as_str()) {
                    Some(emoji) => {
                        let ghost before = out@;
                        push_str(&mut out, emoji);
                        assert(out@ + shortcodes_from(cs, j + 1) =~= before + shortcodes_from(cs, i as int));
                        i = j + 1;
                        continue;
                    },
                    None => {},
                }
            }
            let ghost before = out@;
            push_char(&mut out, ':');
            assert(out@ + shortcodes_from(cs, i + 1) =~= before + shortcodes_from(cs, i as int));
            i = i + 1;
        } else {
            let ghost before = out@;
            push_char(&mut out, chars[i]);
            assert(out@ + shortcodes_from(cs, i + 1) =~= before + shortcodes_from(cs, i as int));
            i = i + 1;
        }
    }
    assert(out@ + shortcodes_from(cs, n as int) =~= out@);
    out
}

/// The three backticks that open or close a fence.
pub open spec fn backticks() -> Seq<char> {
    seq!['`', '`', '`']
}

/// Whether a line opens or closes a backtick fence: its trimmed text
/// starts with three backticks.
pub open spec fn is_fence_line(line: Seq<char>) -> bool {
    text::starts_with(text::trim(line), backticks())
}

/// The emoji pass over the lines `ls`, `in_fence` telling whether a
/// backtick fence is open: fenced lines (fence lines included) are kept,
/// the others get their shortcodes replaced; every line ends in `\n`.
pub open spec fn emoji_lines(ls: Seq<Seq<char>>, in_fence: bool) -> Seq<char>
    decreases ls.len(),
{
    if ls.len() == 0 {
        seq![]
    } else {
        let line = ls[0];
        let fence = is_fence_line(line);
        if in_fence {
            line + seq!['\n'] + emoji_lines(ls.drop_first(), !fence)
        } else if fence {
            line + seq!['\n'] + emoji_lines(ls.drop_first(), true)
        } else {
            with_shortcodes(line) + seq!['\n'] + emoji_lines(ls.drop_first(), false)
        }
    }
}

/// Whether `line` opens or closes a backtick fence.
fn fence_line(line: &str) -> (b: bool)
    ensures
        b == is_fence_line(line@),
{
    let v = chars_of(line);
    let (lo, hi) = text::trim_bounds(&v);
    proof {
        reveal_strlit("```");
        assert("```"@ =~= backticks());
    }
    chars_start_with(&v, lo, hi, "```")
}

/// Replace shortcodes on every line outside fenced code blocks (any
/// backtick fence: mermaid, a language or none).
pub fn preprocess_emoji(text: &str) -> (out: String)
    ensures
        out@ == emoji_lines(text::lines(text@), false),
{
    let lines = lines_of(text);
    let ghost ls = text::lines(text@);
    let mut out = String::new();
    let mut in_fence = false;
    let mut k: usize = 0;
    assert(ls.subrange(0, ls.len() as int) =~= ls);
    assert(out@ + emoji_lines(ls, false) =~= emoji_lines(ls, false));
    while k < lines.len()
        invariant
            k <= lines.len(),
            text::views(lines@) == ls,
            out@ + emoji_lines(ls.subrange(k as int, ls.len() as int), in_fence) == emoji_lines(ls, false),
        decreases lines.len() - k,
    {
        let line = lines[k].as_str();
        assert(line@ == ls[k as int]);
        let ghost rest = ls.subrange(k as int, ls.len() as int);
        assert(rest.drop_first() =~= ls.subrange(k + 1, ls.len() as int));
        let ghost before = out@;
        let ghost was = in_fence;
        let fence = fence_line(line);
        if in_fence {
            push_str(&mut out, line);
            push_char(&mut out, '\n');
            if fence {
                in_fence = false;
            }
        } else if fence {
            in_fence = true;
            push_str(&mut out, line);
            push_char(&mut out, '\n');
        } else {
            let replaced = replace_shortcodes_in_line(line);
            push_str(&mut out, replaced.as_str());
            push_char(&mut out, '\n');
        }
        assert(out@ + emoji_lines(ls.subrange(k + 1, ls.len() as int), in_fence) =~= before + emoji_lines(rest, was));
        k = k + 1;
    }
    assert(ls.subrange(k as int, ls.len() as int) =~= Seq::<Seq<char>>::empty());
    out
}


proof fn lemma_no_colon_from(cs: Seq<char>, i: int)
    requires
        0 <= i <= cs.len(),
        !cs.contains(':'),
    ensures
        shortcodes_from(cs, i) == cs.subrange(i, cs.len() as int),
    decreases cs.len() - i,
{
    if i < cs.len() {
        assert(cs[i] != ':');
        lemma_no_colon_from(cs, i + 1);
        assert(seq![cs[i]] + cs.subrange(i + 1, cs.len() as int) =~= cs.subrange(i, cs.len() as int));
    }
}

/// A line without a colon holds no shortcode and is kept as it is.
pub proof fn lemma_no_colon_unchanged(line: Seq<char>)
    requires
        !line.contains(':'),
    ensures
        with_shortcodes(line) == line,
{
    lemma_no_colon_from(line, 0);
    assert(line.subrange(0, line.len() as int) =~= line);
}


/// A character of an emoji key: a lowercase ASCII letter, a digit, `_`,
/// `+` or `-`.
pub open spec fn is_key_char(c: char) -> bool {
    ||| ('0' <= c && c <= '9')
    ||| ('a' <= c && c <= 'z')
    ||| c == '_'
    ||| c == '+'
    ||| c == '-'
}

/// All characters of `n` from `i` on are key characters.
pub open spec fn key_chars_from(n: Seq<char>, i: nat) -> bool
    decreases n.len() - i,
{
    i >= n.len() || (is_key_char(n[i as int]) && key_chars_from(n, i + 1))
}

proof fn lemma_keys_reaction(n: Seq<char>)
    ensures
        reaction_emoji(n) is Some ==> n.len() > 0 && key_chars_from(n, 0),
{
    reveal_with_fuel(key_chars_from, 14);
    reveal_strlit("+1");
    assert("+1"@.len() > 0 && key_chars_from("+1"@, 0));
    reveal_strlit("thumbsup");
    assert("thumbsup"@.len() > 0 && key_chars_from("thumbsup"@, 0));
    reveal_strlit("-1");
    assert("-1"@.len() > 0 && key_chars_from("-1"@, 0));
    reveal_strlit("thumbsdown");
    assert("thumbsdown"@.len() > 0 && key_chars_from("thumbsdown"@, 0));
    reveal_strlit("tada");
    assert("tada"@.len() > 0 && key_chars_from("tada"@, 0));
    reveal_strlit("rocket");
    assert("rocket"@.len() > 0 && key_chars_from("rocket"@, 0));
    reveal_strlit("fire");
    assert("fire"@.len() > 0 && key_chars_from("fire"@, 0));
    reveal_strlit("sparkles");
    assert("sparkles"@.len() > 0 && key_chars_from("sparkles"@, 0));
    reveal_strlit("100");
    assert("100"@.len() > 0 && key_chars_from("100"@, 0));
    reveal_strlit("ok_hand");
    assert("ok_hand"@.len() > 0 && key_chars_from("ok_hand"@, 0));
    reveal_strlit("clap");
    assert("clap"@.len() > 0 && key_chars_from("clap"@, 0));
    reveal_strlit("wave");
    assert("wave"@.len() > 0 && key_chars_from("wave"@, 0));
    reveal_strlit("pray");
    assert("pray"@.len() > 0 && key_chars_from("pray"@, 0));
    reveal_strlit("muscle");
    assert("muscle"@.len() > 0 && key_chars_from("muscle"@, 0));
    reveal_strlit("raised_hands");
    assert("raised_hands"@.len() > 0 && key_chars_from("raised_hands"@, 0));
    reveal_strlit("handshake");
    assert("handshake"@.len() > 0 && key_chars_from("handshake"@, 0));
    reveal_strlit("heart");
    assert("heart"@.len() > 0 && key_chars_from("heart"@, 0));
    reveal_strlit("broken_heart");
    assert("broken_heart"@.len() > 0 && key_chars_from("broken_heart"@, 0));
    reveal_strlit("heart_eyes");
    assert("heart_eyes"@.len() > 0 && key_chars_from("heart_eyes"@, 0));
    reveal_strlit("eyes");
    assert("eyes"@.len() > 0 && key_chars_from("eyes"@, 0));
    reveal_strlit("brain");
    assert("brain"@.len() > 0 && key_chars_from("brain"@, 0));
}

proof fn lemma_keys_status(n: Seq<char>)
    ensures
        status_emoji(n) is Some ==> n.len() > 0 && key_chars_from(n, 0),
{
    reveal_with_fuel(key_chars_from, 24);
    reveal_strlit("white_check_mark");
    assert("white_check_mark"@.len() > 0 && key_chars_from("white_check_mark"@, 0));
    reveal_strlit("heavy_check_mark");
    assert("heavy_check_mark"@.len() > 0 && key_chars_from("heavy_check_mark"@, 0));
    reveal_strlit("x");
    assert("x"@.len() > 0 && key_chars_from("x"@, 0));
    reveal_strlit("heavy_multiplication_x");
    assert("heavy_multiplication_x"@.len() > 0 && key_chars_from("heavy_multiplication_x"@, 0));
    reveal_strlit("warning");
    assert("warning"@.len() > 0 && key_chars_from("warning"@, 0));
    reveal_strlit("exclamation");
    assert("exclamation"@.len() > 0 && key_chars_from("exclamation"@, 0));
    reveal_strlit("question");
    assert("question"@.len() > 0 && key_chars_from("question"@, 0));
    reveal_strlit("grey_exclamation");
    assert("grey_exclamation"@.len() > 0 && key_chars_from("grey_exclamation"@, 0));
    reveal_strlit("grey_question");
    assert("grey_question"@.len() > 0 && key_chars_from("grey_question"@, 0));
    reveal_strlit("bangbang");
    assert("bangbang"@.len() > 0 && key_chars_from("bangbang"@, 0));
    reveal_strlit("interrobang");
    assert("interrobang"@.len() > 0 && key_chars_from("interrobang"@, 0));
    reveal_strlit("no_entry");
    assert("no_entry"@.len() > 0 && key_chars_from("no_entry"@, 0));
    reveal_strlit("no_entry_sign");
    assert("no_entry_sign"@.len() > 0 && key_chars_from("no_entry_sign"@, 0));
    reveal_strlit("construction");
    assert("construction"@.len() > 0 && key_chars_from("construction"@, 0));
    reveal_strlit("stop_sign");
    assert("stop_sign"@.len() > 0 && key_chars_from("stop_sign"@, 0));
}

proof fn lemma_keys_face(n: Seq<char>)
    ensures
        face_emoji(n) is Some ==> n.len() > 0 && key_chars_from(n, 0),
{
    reveal_with_fuel(key_chars_from, 30);
    reveal_strlit("smile");
    assert("smile"@.len() > 0 && key_chars_from("smile"@, 0));
    reveal_strlit("smiley");
    assert("smiley"@.len() > 0 && key_chars_from("smiley"@, 0));
    reveal_strlit("grin");
    assert("grin"@.len() > 0 && key_chars_from("grin"@, 0));
    reveal_strlit("grinning");
    assert("grinning"@.len() > 0 && key_chars_from("grinning"@, 0));
    reveal_strlit("joy");
    assert("joy"@.len() > 0 && key_chars_from("joy"@, 0));
    reveal_strlit("rofl");
    assert("rofl"@.len() > 0 && key_chars_from("rofl"@, 0));
    reveal_strlit("laughing");
    assert("laughing"@.len() > 0 && key_chars_from("laughing"@, 0));
    reveal_strlit("sweat_smile");
    assert("sweat_smile"@.len() > 0 && key_chars_from("sweat_smile"@, 0));
    reveal_strlit("wink");
    assert("wink"@.len() > 0 && key_chars_from("wink"@, 0));
    reveal_strlit("blush");
    assert("blush"@.len() > 0 && key_chars_from("blush"@, 0));
    reveal_strlit("innocent");
    assert("innocent"@.len() > 0 && key_chars_from("innocent"@, 0));
    reveal_strlit("thinking");
    assert("thinking"@.len() > 0 && key_chars_from("thinking"@, 0));
    reveal_strlit("neutral_face");
    assert("neutral_face"@.len() > 0 && key_chars_from("neutral_face"@, 0));
    reveal_strlit("expressionless");
    assert("expressionless"@.len() > 0 && key_chars_from("expressionless"@, 0));
    reveal_strlit("no_mouth");
    assert("no_mouth"@.len() > 0 && key_chars_from("no_mouth"@, 0));
    reveal_strlit("smirk");
    assert("smirk"@.len() > 0 && key_chars_from("smirk"@, 0));
    reveal_strlit("unamused");
    assert("unamused"@.len() > 0 && key_chars_from("unamused"@, 0));
    reveal_strlit("roll_eyes");
    assert("roll_eyes"@.len() > 0 && key_chars_from("roll_eyes"@, 0));
    reveal_strlit("grimacing");
    assert("grimacing"@.len() > 0 && key_chars_from("grimacing"@, 0));
    reveal_strlit("face_with_raised_eyebrow");
    assert("face_with_raised_eyebrow"@.len() > 0 && key_chars_from("face_with_raised_eyebrow"@, 0));
    reveal_strlit("confused");
    assert("confused"@.len() > 0 && key_chars_from("confused"@, 0));
    reveal_strlit("worried");
    assert("worried"@.len() > 0 && key_chars_from("worried"@, 0));
    reveal_strlit("frowning");
    assert("frowning"@.len() > 0 && key_chars_from("frowning"@, 0));
    reveal_strlit("anguished");
    assert("anguished"@.len() > 0 && key_chars_from("anguished"@, 0));
    reveal_strlit("open_mouth");
    assert("open_mouth"@.len() > 0 && key_chars_from("open_mouth"@, 0));
    reveal_strlit("hushed");
    assert("hushed"@.len() > 0 && key_chars_from("hushed"@, 0));
    reveal_strlit("astonished");
    assert("astonished"@.len() > 0 && key_chars_from("astonished"@, 0));
    reveal_strlit("scream");
    assert("scream"@.len() > 0 && key_chars_from("scream"@, 0));
    reveal_strlit("tired_face");
    assert("tired_face"@.len() > 0 && key_chars_from("tired_face"@, 0));
    reveal_strlit("weary");
    assert("weary"@.len() > 0 && key_chars_from("weary"@, 0));
    reveal_strlit("sleepy");
    assert("sleepy"@.len() > 0 && key_chars_from("sleepy"@, 0));
    reveal_strlit("sleeping");
    assert("sleeping"@.len() > 0 && key_chars_from("sleeping"@, 0));
    reveal_strlit("yum");
    assert("yum"@.len() > 0 && key_chars_from("yum"@, 0));
    reveal_strlit("stuck_out_tongue");
    assert("stuck_out_tongue"@.len() > 0 && key_chars_from("stuck_out_tongue"@, 0));
    reveal_strlit("stuck_out_tongue_winking_eye");
    assert("stuck_out_tongue_winking_eye"@.len() > 0 && key_chars_from("stuck_out_tongue_winking_eye"@, 0));
    reveal_strlit("zany_face");
    assert("zany_face"@.len() > 0 && key_chars_from("zany_face"@, 0));
    reveal_strlit("face_with_hand_over_mouth");
    assert("face_with_hand_over_mouth"@.len() > 0 && key_chars_from("face_with_hand_over_mouth"@, 0));
    reveal_strlit("shushing_face");
    assert("shushing_face"@.len() > 0 && key_chars_from("shushing_face"@, 0));
    reveal_strlit("face_with_monocle");
    assert("face_with_monocle"@.len() > 0 && key_chars_from("face_with_monocle"@, 0));
    reveal_strlit("nerd_face");
    assert("nerd_face"@.len() > 0 && key_chars_from("nerd_face"@, 0));
    reveal_strlit("sunglasses");
    assert("sunglasses"@.len() > 0 && key_chars_from("sunglasses"@, 0));
    reveal_strlit("star_struck");
    assert("star_struck"@.len() > 0 && key_chars_from("star_struck"@, 0));
    reveal_strlit("partying_face");
    assert("partying_face"@.len() > 0 && key_chars_from("partying_face"@, 0));
    reveal_strlit("cry");
    assert("cry"@.len() > 0 && key_chars_from("cry"@, 0));
    reveal_strlit("sob");
    assert("sob"@.len() > 0 && key_chars_from("sob"@, 0));
    reveal_strlit("rage");
    assert("rage"@.len() > 0 && key_chars_from("rage"@, 0));
    reveal_strlit("angry");
    assert("angry"@.len() > 0 && key_chars_from("angry"@, 0));
    reveal_strlit("triumph");
    assert("triumph"@.len() > 0 && key_chars_from("triumph"@, 0));
    reveal_strlit("imp");
    assert("imp"@.len() > 0 && key_chars_from("imp"@, 0));
    reveal_strlit("smiling_imp");
    assert("smiling_imp"@.len() > 0 && key_chars_from("smiling_imp"@, 0));
    reveal_strlit("skull");
    assert("skull"@.len() > 0 && key_chars_from("skull"@, 0));
    reveal_strlit("skull_and_crossbones");
    assert("skull_and_crossbones"@.len() > 0 && key_chars_from("skull_and_crossbones"@, 0));
    reveal_strlit("alien");
    assert("alien"@.len() > 0 && key_chars_from("alien"@, 0));
    reveal_strlit("robot");
    assert("robot"@.len() > 0 && key_chars_from("robot"@, 0));
    reveal_strlit("ghost");
    assert("ghost"@.len() > 0 && key_chars_from("ghost"@, 0));
}

proof fn lemma_keys_tech(n: Seq<char>)
    ensures
        tech_emoji(n) is Some ==> n.len() > 0 && key_chars_from(n, 0),
{
    reveal_with_fuel(key_chars_from, 24);
    reveal_strlit("computer");
    assert("computer"@.len() > 0 && key_chars_from("computer"@, 0));
    reveal_strlit("desktop_computer");
    assert("desktop_computer"@.len() > 0 && key_chars_from("desktop_computer"@, 0));
    reveal_strlit("keyboard");
    assert("keyboard"@.len() > 0 && key_chars_from("keyboard"@, 0));
    reveal_strlit("mouse");
    assert("mouse"@.len() > 0 && key_chars_from("mouse"@, 0));
    reveal_strlit("iphone");
    assert("iphone"@.len() > 0 && key_chars_from("iphone"@, 0));
    reveal_strlit("phone");
    assert("phone"@.len() > 0 && key_chars_from("phone"@, 0));
    reveal_strlit("telephone");
    assert("telephone"@.len() > 0 && key_chars_from("telephone"@, 0));
    reveal_strlit("package");
    assert("package"@.len() > 0 && key_chars_from("package"@, 0));
    reveal_strlit("memo");
    assert("memo"@.len() > 0 && key_chars_from("memo"@, 0));
    reveal_strlit("pencil");
    assert("pencil"@.len() > 0 && key_chars_from("pencil"@, 0));
    reveal_strlit("pencil2");
    assert("pencil2"@.len() > 0 && key_chars_from("pencil2"@, 0));
    reveal_strlit("bulb");
    assert("bulb"@.len() > 0 && key_chars_from("bulb"@, 0));
    reveal_strlit("wrench");
    assert("wrench"@.len() > 0 && key_chars_from("wrench"@, 0));
    reveal_strlit("hammer");
    assert("hammer"@.len() > 0 && key_chars_from("hammer"@, 0));
    reveal_strlit("hammer_and_wrench");
    assert("hammer_and_wrench"@.len() > 0 && key_chars_from("hammer_and_wrench"@, 0));
    reveal_strlit("gear");
    assert("gear"@.len() > 0 && key_chars_from("gear"@, 0));
    reveal_strlit("nut_and_bolt");
    assert("nut_and_bolt"@.len() > 0 && key_chars_from("nut_and_bolt"@, 0));
    reveal_strlit("bug");
    assert("bug"@.len() > 0 && key_chars_from("bug"@, 0));
    reveal_strlit("lock");
    assert("lock"@.len() > 0 && key_chars_from("lock"@, 0));
    reveal_strlit("unlock");
    assert("unlock"@.len() > 0 && key_chars_from("unlock"@, 0));
    reveal_strlit("key");
    assert("key"@.len() > 0 && key_chars_from("key"@, 0));
    reveal_strlit("shield");
    assert("shield"@.len() > 0 && key_chars_from("shield"@, 0));
    reveal_strlit("satellite");
    assert("satellite"@.len() > 0 && key_chars_from("satellite"@, 0));
    reveal_strlit("zap");
    assert("zap"@.len() > 0 && key_chars_from("zap"@, 0));
    reveal_strlit("boom");
    assert("boom"@.len() > 0 && key_chars_from("boom"@, 0));
    reveal_strlit("bomb");
    assert("bomb"@.len() > 0 && key_chars_from("bomb"@, 0));
    reveal_strlit("link");
    assert("link"@.len() > 0 && key_chars_from("link"@, 0));
    reveal_strlit("paperclip");
    assert("paperclip"@.len() > 0 && key_chars_from("paperclip"@, 0));
    reveal_strlit("books");
    assert("books"@.len() > 0 && key_chars_from("books"@, 0));
    reveal_strlit("book");
    assert("book"@.len() > 0 && key_chars_from("book"@, 0));
    reveal_strlit("page_facing_up");
    assert("page_facing_up"@.len() > 0 && key_chars_from("page_facing_up"@, 0));
    reveal_strlit("scroll");
    assert("scroll"@.len() > 0 && key_chars_from("scroll"@, 0));
    reveal_strlit("clipboard");
    assert("clipboard"@.len() > 0 && key_chars_from("clipboard"@, 0));
    reveal_strlit("calendar");
    assert("calendar"@.len() > 0 && key_chars_from("calendar"@, 0));
    reveal_strlit("stopwatch");
    assert("stopwatch"@.len() > 0 && key_chars_from("stopwatch"@, 0));
    reveal_strlit("alarm_clock");
    assert("alarm_clock"@.len() > 0 && key_chars_from("alarm_clock"@, 0));
    reveal_strlit("hourglass");
    assert("hourglass"@.len() > 0 && key_chars_from("hourglass"@, 0));
    reveal_strlit("hourglass_flowing_sand");
    assert("hourglass_flowing_sand"@.len() > 0 && key_chars_from("hourglass_flowing_sand"@, 0));
}

proof fn lemma_keys_cue(n: Seq<char>)
    ensures
        cue_emoji(n) is Some ==> n.len() > 0 && key_chars_from(n, 0),
{
    reveal_with_fuel(key_chars_from, 20);
    reveal_strlit("star");
    assert("star"@.len() > 0 && key_chars_from("star"@, 0));
    reveal_strlit("star2");
    assert("star2"@.len() > 0 && key_chars_from("star2"@, 0));
    reveal_strlit("trophy");
    assert("trophy"@.len() > 0 && key_chars_from("trophy"@, 0));
    reveal_strlit("medal_sports");
    assert("medal_sports"@.len() > 0 && key_chars_from("medal_sports"@, 0));
    reveal_strlit("first_place_medal");
    assert("first_place_medal"@.len() > 0 && key_chars_from("first_place_medal"@, 0));
    reveal_strlit("second_place_medal");
    assert("second_place_medal"@.len() > 0 && key_chars_from("second_place_medal"@, 0));
    reveal_strlit("third_place_medal");
    assert("third_place_medal"@.len() > 0 && key_chars_from("third_place_medal"@, 0));
    reveal_strlit("crown");
    assert("crown"@.len() > 0 && key_chars_from("crown"@, 0));
    reveal_strlit("gem");
    assert("gem"@.len() > 0 && key_chars_from("gem"@, 0));
    reveal_strlit("moneybag");
    assert("moneybag"@.len() > 0 && key_chars_from("moneybag"@, 0));
    reveal_strlit("dollar");
    assert("dollar"@.len() > 0 && key_chars_from("dollar"@, 0));
}

proof fn lemma_keys_arrow(n: Seq<char>)
    ensures
        arrow_emoji(n) is Some ==> n.len() > 0 && key_chars_from(n, 0),
{
    reveal_with_fuel(key_chars_from, 27);
    reveal_strlit("arrow_up");
    assert("arrow_up"@.len() > 0 && key_chars_from("arrow_up"@, 0));
    reveal_strlit("arrow_down");
    assert("arrow_down"@.len() > 0 && key_chars_from("arrow_down"@, 0));
    reveal_strlit("arrow_left");
    assert("arrow_left"@.len() > 0 && key_chars_from("arrow_left"@, 0));
    reveal_strlit("arrow_right");
    assert("arrow_right"@.len() > 0 && key_chars_from("arrow_right"@, 0));
    reveal_strlit("arrow_upper_right");
    assert("arrow_upper_right"@.len() > 0 && key_chars_from("arrow_upper_right"@, 0));
    reveal_strlit("arrow_lower_right");
    assert("arrow_lower_right"@.len() > 0 && key_chars_from("arrow_lower_right"@, 0));
    reveal_strlit("arrow_upper_left");
    assert("arrow_upper_left"@.len() > 0 && key_chars_from("arrow_upper_left"@, 0));
    reveal_strlit("arrow_lower_left");
    assert("arrow_lower_left"@.len() > 0 && key_chars_from("arrow_lower_left"@, 0));
    reveal_strlit("arrows_clockwise");
    assert("arrows_clockwise"@.len() > 0 && key_chars_from("arrows_clockwise"@, 0));
    reveal_strlit("arrows_counterclockwise");
    assert("arrows_counterclockwise"@.len() > 0 && key_chars_from("arrows_counterclockwise"@, 0));
    reveal_strlit("leftwards_arrow_with_hook");
    assert("leftwards_arrow_with_hook"@.len() > 0 && key_chars_from("leftwards_arrow_with_hook"@, 0));
    reveal_strlit("arrow_right_hook");
    assert("arrow_right_hook"@.len() > 0 && key_chars_from("arrow_right_hook"@, 0));
    reveal_strlit("point_up");
    assert("point_up"@.len() > 0 && key_chars_from("point_up"@, 0));
    reveal_strlit("point_down");
    assert("point_down"@.len() > 0 && key_chars_from("point_down"@, 0));
    reveal_strlit("point_left");
    assert("point_left"@.len() > 0 && key_chars_from("point_left"@, 0));
    reveal_strlit("point_right");
    assert("point_right"@.len() > 0 && key_chars_from("point_right"@, 0));
}

proof fn lemma_keys_misc(n: Seq<char>)
    ensures
        misc_emoji(n) is Some ==> n.len() > 0 && key_chars_from(n, 0),
{
    reveal_with_fuel(key_chars_from, 16);
    reveal_strlit("coffee");
    assert("coffee"@.len() > 0 && key_chars_from("coffee"@, 0));
    reveal_strlit("beer");
    assert("beer"@.len() > 0 && key_chars_from("beer"@, 0));
    reveal_strlit("pizza");
    assert("pizza"@.len() > 0 && key_chars_from("pizza"@, 0));
    reveal_strlit("poop");
    assert("poop"@.len() > 0 && key_chars_from("poop"@, 0));
    reveal_strlit("shit");
    assert("shit"@.len() > 0 && key_chars_from("shit"@, 0));
    reveal_strlit("hankey");
    assert("hankey"@.len() > 0 && key_chars_from("hankey"@, 0));
    reveal_strlit("tada_party");
    assert("tada_party"@.len() > 0 && key_chars_from("tada_party"@, 0));
    reveal_strlit("balloon");
    assert("balloon"@.len() > 0 && key_chars_from("balloon"@, 0));
    reveal_strlit("gift");
    assert("gift"@.len() > 0 && key_chars_from("gift"@, 0));
    reveal_strlit("art");
    assert("art"@.len() > 0 && key_chars_from("art"@, 0));
    reveal_strlit("rainbow");
    assert("rainbow"@.len() > 0 && key_chars_from("rainbow"@, 0));
    reveal_strlit("sun");
    assert("sun"@.len() > 0 && key_chars_from("sun"@, 0));
    reveal_strlit("sunny");
    assert("sunny"@.len() > 0 && key_chars_from("sunny"@, 0));
    reveal_strlit("cloud");
    assert("cloud"@.len() > 0 && key_chars_from("cloud"@, 0));
    reveal_strlit("snowflake");
    assert("snowflake"@.len() > 0 && key_chars_from("snowflake"@, 0));
    reveal_strlit("umbrella");
    assert("umbrella"@.len() > 0 && key_chars_from("umbrella"@, 0));
    reveal_strlit("earth_americas");
    assert("earth_americas"@.len() > 0 && key_chars_from("earth_americas"@, 0));
    reveal_strlit("earth_africa");
    assert("earth_africa"@.len() > 0 && key_chars_from("earth_africa"@, 0));
    reveal_strlit("earth_asia");
    assert("earth_asia"@.len() > 0 && key_chars_from("earth_asia"@, 0));
}

proof fn lemma_keys_animal(n: Seq<char>)
    ensures
        animal_emoji(n) is Some ==> n.len() > 0 && key_chars_from(n, 0),
{
    reveal_with_fuel(key_chars_from, 15);
    reveal_strlit("dog");
    assert("dog"@.len() > 0 && key_chars_from("dog"@, 0));
    reveal_strlit("cat");
    assert("cat"@.len() > 0 && key_chars_from("cat"@, 0));
    reveal_strlit("fox_face");
    assert("fox_face"@.len() > 0 && key_chars_from("fox_face"@, 0));
    reveal_strlit("lion");
    assert("lion"@.len() > 0 && key_chars_from("lion"@, 0));
    reveal_strlit("monkey");
    assert("monkey"@.len() > 0 && key_chars_from("monkey"@, 0));
    reveal_strlit("see_no_evil");
    assert("see_no_evil"@.len() > 0 && key_chars_from("see_no_evil"@, 0));
    reveal_strlit("hear_no_evil");
    assert("hear_no_evil"@.len() > 0 && key_chars_from("hear_no_evil"@, 0));
    reveal_strlit("speak_no_evil");
    assert("speak_no_evil"@.len() > 0 && key_chars_from("speak_no_evil"@, 0));
    reveal_strlit("panda_face");
    assert("panda_face"@.len() > 0 && key_chars_from("panda_face"@, 0));
    reveal_strlit("penguin");
    assert("penguin"@.len() > 0 && key_chars_from("penguin"@, 0));
    reveal_strlit("owl");
    assert("owl"@.len() > 0 && key_chars_from("owl"@, 0));
    reveal_strlit("snail");
    assert("snail"@.len() > 0 && key_chars_from("snail"@, 0));
    reveal_strlit("ant");
    assert("ant"@.len() > 0 && key_chars_from("ant"@, 0));
    reveal_strlit("honeybee");
    assert("honeybee"@.len() > 0 && key_chars_from("honeybee"@, 0));
    reveal_strlit("butterfly");
    assert("butterfly"@.len() > 0 && key_chars_from("butterfly"@, 0));
    reveal_strlit("octopus");
    assert("octopus"@.len() > 0 && key_chars_from("octopus"@, 0));
}

proof fn lemma_keys_nature(n: Seq<char>)
    ensures
        nature_emoji(n) is Some ==> n.len() > 0 && key_chars_from(n, 0),
{
    reveal_with_fuel(key_chars_from, 16);
    reveal_strlit("seedling");
    assert("seedling"@.len() > 0 && key_chars_from("seedling"@, 0));
    reveal_strlit("evergreen_tree");
    assert("evergreen_tree"@.len() > 0 && key_chars_from("evergreen_tree"@, 0));
    reveal_strlit("deciduous_tree");
    assert("deciduous_tree"@.len() > 0 && key_chars_from("deciduous_tree"@, 0));
    reveal_strlit("palm_tree");
    assert("palm_tree"@.len() > 0 && key_chars_from("palm_tree"@, 0));
    reveal_strlit("cactus");
    assert("cactus"@.len() > 0 && key_chars_from("cactus"@, 0));
    reveal_strlit("herb");
    assert("herb"@.len() > 0 && key_chars_from("herb"@, 0));
    reveal_strlit("leaves");
    assert("leaves"@.len() > 0 && key_chars_from("leaves"@, 0));
    reveal_strlit("rose");
    assert("rose"@.len() > 0 && key_chars_from("rose"@, 0));
    reveal_strlit("cherry_blossom");
    assert("cherry_blossom"@.len() > 0 && key_chars_from("cherry_blossom"@, 0));
    reveal_strlit("sunflower");
    assert("sunflower"@.len() > 0 && key_chars_from("sunflower"@, 0));
}

proof fn lemma_keys_food(n: Seq<char>)
    ensures
        food_emoji(n) is Some ==> n.len() > 0 && key_chars_from(n, 0),
{
    reveal_with_fuel(key_chars_from, 15);
    reveal_strlit("apple");
    assert("apple"@.len() > 0 && key_chars_from("apple"@, 0));
    reveal_strlit("red_apple");
    assert("red_apple"@.len() > 0 && key_chars_from("red_apple"@, 0));
    reveal_strlit("banana");
    assert("banana"@.len() > 0 && key_chars_from("banana"@, 0));
    reveal_strlit("cake");
    assert("cake"@.len() > 0 && key_chars_from("cake"@, 0));
    reveal_strlit("cookie");
    assert("cookie"@.len() > 0 && key_chars_from("cookie"@, 0));
    reveal_strlit("doughnut");
    assert("doughnut"@.len() > 0 && key_chars_from("doughnut"@, 0));
    reveal_strlit("icecream");
    assert("icecream"@.len() > 0 && key_chars_from("icecream"@, 0));
    reveal_strlit("chocolate_bar");
    assert("chocolate_bar"@.len() > 0 && key_chars_from("chocolate_bar"@, 0));
}

proof fn lemma_key_chars_name(n: Seq<char>, i: nat)
    requires
        key_chars_from(n, i),
    ensures
        forall|k: int| i <= k < n.len() ==> is_name_char(#[trigger] n[k]),
    decreases n.len() - i,
{
    if i < n.len() {
        lemma_key_chars_name(n, i + 1);
    }
}

/// Every emoji key is a non-empty run of lowercase ASCII letters, digits,
/// `_`, `+` and `-`, so the shortcode scanner reaches each one, and an
/// upper-case letter never names an emoji.
pub proof fn lemma_emoji_keys(name: Seq<char>)
    ensures
        emoji_of(name) is Some ==> name.len() > 0 && key_chars_from(name, 0),
        emoji_of(name) is Some ==> forall|k: int| 0 <= k < name.len() ==> is_name_char(#[trigger] name[k]),
{
    lemma_keys_reaction(name);
    lemma_keys_status(name);
    lemma_keys_face(name);
    lemma_keys_tech(name);
    lemma_keys_cue(name);
    lemma_keys_arrow(name);
    lemma_keys_misc(name);
    lemma_keys_animal(name);
    lemma_keys_nature(name);
    lemma_keys_food(name);
    if emoji_of(name) is Some {
        lemma_key_chars_name(name, 0);
    }
}

/// The name an emoji stands for, told by its first character: the first
/// name the shortcode table lists for it.
pub open spec fn emoji_name(c: char) -> Seq<char> {
    if c == '\u{1f44d}' {
        "+1"@
    } else if c == '\u{1f44e}' {
        "-1"@
    } else if c == '\u{1f389}' {
        "tada"@
    } else if c == '\u{1f680}' {
        "rocket"@
    } else if c == '\u{1f525}' {
        "fire"@
    } else if c == '\u{2728}' {
        "sparkles"@
    } else if c == '\u{1f4af}' {
        "100"@
    } else if c == '\u{1f44c}' {
        "ok_hand"@
    } else if c == '\u{1f44f}' {
        "clap"@
    } else if c == '\u{1f44b}' {
        "wave"@
    } else if c == '\u{1f64f}' {
        "pray"@
    } else if c == '\u{1f4aa}' {
        "muscle"@
    } else if c == '\u{1f64c}' {
        "raised_hands"@
    } else if c == '\u{1f91d}' {
        "handshake"@
    } else if c == '\u{2764}' {
        "heart"@
    } else if c == '\u{1f494}' {
        "broken_heart"@
    } else if c == '\u{1f60d}' {
        "heart_eyes"@
    } else if c == '\u{1f440}' {
        "eyes"@
    } else if c == '\u{1f9e0}' {
        "brain"@
    } else if c == '\u{2705}' {
        "white_check_mark"@
    } else if c == '\u{2714}' {
        "heavy_check_mark"@
    } else if c == '\u{274c}' {
        "x"@
    } else if c == '\u{2716}' {
        "heavy_multiplication_x"@
    } else if c == '\u{26a0}' {
        "warning"@
    } else if c == '\u{2757}' {
        "exclamation"@
    } else if c == '\u{2753}' {
        "question"@
    } else if c == '\u{2755}' {
        "grey_exclamation"@
    } else if c == '\u{2754}' {
        "grey_question"@
    } else if c == '\u{203c}' {
        "bangbang"@
    } else if c == '\u{2049}' {
        "interrobang"@
    } else if c == '\u{26d4}' {
        "no_entry"@
    } else if c == '\u{1f6ab}' {
        "no_entry_sign"@
    } else if c == '\u{1f6a7}' {
        "construction"@
    } else if c == '\u{1f6d1}' {
        "stop_sign"@
    } else if c == '\u{1f604}' {
        "smile"@
    } else if c == '\u{1f603}' {
        "smiley"@
    } else if c == '\u{1f601}' {
        "grin"@
    } else if c == '\u{1f600}' {
        "grinning"@
    } else if c == '\u{1f602}' {
        "joy"@
    } else if c == '\u{1f923}' {
        "rofl"@
    } else if c == '\u{1f606}' {
        "laughing"@
    } else if c == '\u{1f605}' {
        "sweat_smile"@
    } else if c == '\u{1f609}' {
        "wink"@
    } else if c == '\u{1f60a}' {
        "blush"@
    } else if c == '\u{1f607}' {
        "innocent"@
    } else if c == '\u{1f914}' {
        "thinking"@
    } else if c == '\u{1f610}' {
        "neutral_face"@
    } else if c == '\u{1f611}' {
        "expressionless"@
    } else if c == '\u{1f636}' {
        "no_mouth"@
    } else if c == '\u{1f60f}' {
        "smirk"@
    } else if c == '\u{1f612}' {
        "unamused"@
    } else if c == '\u{1f644}' {
        "roll_eyes"@
    } else if c == '\u{1f62c}' {
        "grimacing"@
    } else if c == '\u{1f928}' {
        "face_with_raised_eyebrow"@
    } else if c == '\u{1f615}' {
        "confused"@
    } else if c == '\u{1f61f}' {
        "worried"@
    } else if c == '\u{1f626}' {
        "frowning"@
    } else if c == '\u{1f627}' {
        "anguished"@
    } else if c == '\u{1f62e}' {
        "open_mouth"@
    } else if c == '\u{1f62f}' {
        "hushed"@
    } else if c == '\u{1f632}' {
        "astonished"@
    } else if c == '\u{1f631}' {
        "scream"@
    } else if c == '\u{1f62b}' {
        "tired_face"@
    } else if c == '\u{1f629}' {
        "weary"@
    } else if c == '\u{1f62a}' {
        "sleepy"@
    } else if c == '\u{1f634}' {
        "sleeping"@
    } else if c == '\u{1f60b}' {
        "yum"@
    } else if c == '\u{1f61b}' {
        "stuck_out_tongue"@
    } else if c == '\u{1f61c}' {
        "stuck_out_tongue_winking_eye"@
    } else if c == '\u{1f92a}' {
        "zany_face"@
    } else if c == '\u{1f92d}' {
        "face_with_hand_over_mouth"@
    } else if c == '\u{1f92b}' {
        "shushing_face"@
    } else if c == '\u{1f9d0}' {
        "face_with_monocle"@
    } else if c == '\u{1f913}' {
        "nerd_face"@
    } else if c == '\u{1f60e}' {
        "sunglasses"@
    } else if c == '\u{1f929}' {
        "star_struck"@
    } else if c == '\u{1f973}' {
        "partying_face"@
    } else if c == '\u{1f622}' {
        "cry"@
    } else if c == '\u{1f62d}' {
        "sob"@
    } else if c == '\u{1f621}' {
        "rage"@
    } else if c == '\u{1f620}' {
        "angry"@
    } else if c == '\u{1f624}' {
        "triumph"@
    } else if c == '\u{1f47f}' {
        "imp"@
    } else if c == '\u{1f608}' {
        "smiling_imp"@
    } else if c == '\u{1f480}' {
        "skull"@
    } else if c == '\u{2620}' {
        "skull_and_crossbones"@
    } else if c == '\u{1f47d}' {
        "alien"@
    } else if c == '\u{1f916}' {
        "robot"@
    } else if c == '\u{1f47b}' {
        "ghost"@
    } else if c == '\u{1f4bb}' {
        "computer"@
    } else if c == '\u{1f5a5}' {
        "desktop_computer"@
    } else if c == '\u{2328}' {
        "keyboard"@
    } else if c == '\u{1f5b1}' {
        "mouse"@
    } else if c == '\u{1f4f1}' {
        "iphone"@
    } else if c == '\u{260e}' {
        "phone"@
    } else if c == '\u{1f4e6}' {
        "package"@
    } else if c == '\u{1f4dd}' {
        "memo"@
    } else if c == '\u{270f}' {
        "pencil2"@
    } else if c == '\u{1f4a1}' {
        "bulb"@
    } else if c == '\u{1f527}' {
        "wrench"@
    } else if c == '\u{1f528}' {
        "hammer"@
    } else if c == '\u{1f6e0}' {
        "hammer_and_wrench"@
    } else if c == '\u{2699}' {
        "gear"@
    } else if c == '\u{1f529}' {
        "nut_and_bolt"@
    } else if c == '\u{1f41b}' {
        "bug"@
    } else if c == '\u{1f512}' {
        "lock"@
    } else if c == '\u{1f513}' {
        "unlock"@
    } else if c == '\u{1f511}' {
        "key"@
    } else if c == '\u{1f6e1}' {
        "shield"@
    } else if c == '\u{1f6f0}' {
        "satellite"@
    } else if c == '\u{26a1}' {
        "zap"@
    } else if c == '\u{1f4a5}' {
        "boom"@
    } else if c == '\u{1f4a3}' {
        "bomb"@
    } else if c == '\u{1f517}' {
        "link"@
    } else if c == '\u{1f4ce}' {
        "paperclip"@
    } else if c == '\u{1f4da}' {
        "books"@
    } else if c == '\u{1f4d6}' {
        "book"@
    } else if c == '\u{1f4c4}' {
        "page_facing_up"@
    } else if c == '\u{1f4dc}' {
        "scroll"@
    } else if c == '\u{1f4cb}' {
        "clipboard"@
    } else if c == '\u{1f4c5}' {
        "calendar"@
    } else if c == '\u{23f1}' {
        "stopwatch"@
    } else if c == '\u{23f0}' {
        "alarm_clock"@
    } else if c == '\u{231b}' {
        "hourglass"@
    } else if c == '\u{23f3}' {
        "hourglass_flowing_sand"@
    } else if c == '\u{2b50}' {
        "star"@
    } else if c == '\u{1f31f}' {
        "star2"@
    } else if c == '\u{1f3c6}' {
        "trophy"@
    } else if c == '\u{1f3c5}' {
        "medal_sports"@
    } else if c == '\u{1f947}' {
        "first_place_medal"@
    } else if c == '\u{1f948}' {
        "second_place_medal"@
    } else if c == '\u{1f949}' {
        "third_place_medal"@
    } else if c == '\u{1f451}' {
        "crown"@
    } else if c == '\u{1f48e}' {
        "gem"@
    } else if c == '\u{1f4b0}' {
        "moneybag"@
    } else if c == '\u{1f4b5}' {
        "dollar"@
    } else if c == '\u{2b06}' {
        "arrow_up"@
    } else if c == '\u{2b07}' {
        "arrow_down"@
    } else if c == '\u{2b05}' {
        "arrow_left"@
    } else if c == '\u{27a1}' {
        "arrow_right"@
    } else if c == '\u{2197}' {
        "arrow_upper_right"@
    } else if c == '\u{2198}' {
        "arrow_lower_right"@
    } else if c == '\u{2196}' {
        "arrow_upper_left"@
    } else if c == '\u{2199}' {
        "arrow_lower_left"@
    } else if c == '\u{1f503}' {
        "arrows_clockwise"@
    } else if c == '\u{1f504}' {
        "arrows_counterclockwise"@
    } else if c == '\u{21a9}' {
        "leftwards_arrow_with_hook"@
    } else if c == '\u{21aa}' {
        "arrow_right_hook"@
    } else if c == '\u{261d}' {
        "point_up"@
    } else if c == '\u{1f447}' {
        "point_down"@
    } else if c == '\u{1f448}' {
        "point_left"@
    } else if c == '\u{1f449}' {
        "point_right"@
    } else if c == '\u{2615}' {
        "coffee"@
    } else if c == '\u{1f37a}' {
        "beer"@
    } else if c == '\u{1f355}' {
        "pizza"@
    } else if c == '\u{1f4a9}' {
        "poop"@
    } else if c == '\u{1f388}' {
        "balloon"@
    } else if c == '\u{1f381}' {
        "gift"@
    } else if c == '\u{1f3a8}' {
        "art"@
    } else if c == '\u{1f308}' {
        "rainbow"@
    } else if c == '\u{2600}' {
        "sun"@
    } else if c == '\u{2601}' {
        "cloud"@
    } else if c == '\u{2744}' {
        "snowflake"@
    } else if c == '\u{2602}' {
        "umbrella"@
    } else if c == '\u{1f30e}' {
        "earth_americas"@
    } else if c == '\u{1f30d}' {
        "earth_africa"@
    } else if c == '\u{1f30f}' {
        "earth_asia"@
    } else if c == '\u{1f436}' {
        "dog"@
    } else if c == '\u{1f431}' {
        "cat"@
    } else if c == '\u{1f98a}' {
        "fox_face"@
    } else if c == '\u{1f981}' {
        "lion"@
    } else if c == '\u{1f412}' {
        "monkey"@
    } else if c == '\u{1f648}' {
        "see_no_evil"@
    } else if c == '\u{1f649}' {
        "hear_no_evil"@
    } else if c == '\u{1f64a}' {
        "speak_no_evil"@
    } else if c == '\u{1f43c}' {
        "panda_face"@
    } else if c == '\u{1f427}' {
        "penguin"@
    } else if c == '\u{1f989}' {
        "owl"@
    } else if c == '\u{1f40c}' {
        "snail"@
    } else if c == '\u{1f41c}' {
        "ant"@
    } else if c == '\u{1f41d}' {
        "honeybee"@
    } else if c == '\u{1f98b}' {
        "butterfly"@
    } else if c == '\u{1f419}' {
        "octopus"@
    } else if c == '\u{1f331}' {
        "seedling"@
    } else if c == '\u{1f332}' {
        "evergreen_tree"@
    } else if c == '\u{1f333}' {
        "deciduous_tree"@
    } else if c == '\u{1f334}' {
        "palm_tree"@
    } else if c == '\u{1f335}' {
        "cactus"@
    } else if c == '\u{1f33f}' {
        "herb"@
    } else if c == '\u{1f343}' {
        "leaves"@
    } else if c == '\u{1f339}' {
        "rose"@
    } else if c == '\u{1f338}' {
        "cherry_blossom"@
    } else if c == '\u{1f33b}' {
        "sunflower"@
    } else if c == '\u{1f34e}' {
        "apple"@
    } else if c == '\u{1f34c}' {
        "banana"@
    } else if c == '\u{1f370}' {
        "cake"@
    } else if c == '\u{1f36a}' {
        "cookie"@
    } else if c == '\u{1f369}' {
        "doughnut"@
    } else if c == '\u{1f368}' {
        "icecream"@
    } else if c == '\u{1f36b}' {
        "chocolate_bar"@
    } else {
        seq![]
    }
}

/// The name a shortcode stands for: an alias is read as the first name
/// the table lists for the same emoji; every other name as itself.
pub open spec fn canonical_name(n: Seq<char>) -> Seq<char> {
    if n == "thumbsup"@ {
        "+1"@
    } else if n == "thumbsdown"@ {
        "-1"@
    } else if n == "telephone"@ {
        "phone"@
    } else if n == "pencil"@ {
        "memo"@
    } else if n == "shit"@ {
        "poop"@
    } else if n == "hankey"@ {
        "poop"@
    } else if n == "tada_party"@ {
        "partying_face"@
    } else if n == "sunny"@ {
        "sun"@
    } else if n == "red_apple"@ {
        "apple"@
    } else {
        n
    }
}

proof fn lemma_names_reaction(n: Seq<char>)
    ensures
        reaction_emoji(n) is Some ==> reaction_emoji(n)->0.len() > 0 && canonical_name(n) == emoji_name(reaction_emoji(n)->0[0]),
{
    reveal_strlit("+1");
    reveal_strlit("thumbsup");
    reveal_strlit("👍");
    reveal_strlit("-1");
    reveal_strlit("thumbsdown");
    reveal_strlit("👎");
    reveal_strlit("tada");
    reveal_strlit("🎉");
    reveal_strlit("rocket");
    reveal_strlit("🚀");
    reveal_strlit("fire");
    reveal_strlit("🔥");
    reveal_strlit("sparkles");
    reveal_strlit("✨");
    reveal_strlit("100");
    reveal_strlit("💯");
    reveal_strlit("ok_hand");
    reveal_strlit("👌");
    reveal_strlit("clap");
    reveal_strlit("👏");
    reveal_strlit("wave");
    reveal_strlit("👋");
    reveal_strlit("pray");
    reveal_strlit("🙏");
    reveal_strlit("muscle");
    reveal_strlit("💪");
    reveal_strlit("raised_hands");
    reveal_strlit("🙌");
    reveal_strlit("handshake");
    reveal_strlit("🤝");
    reveal_strlit("heart");
    reveal_strlit("❤️");
    reveal_strlit("broken_heart");
    reveal_strlit("💔");
    reveal_strlit("heart_eyes");
    reveal_strlit("😍");
    reveal_strlit("eyes");
    reveal_strlit("👀");
    reveal_strlit("brain");
    reveal_strlit("🧠");
    reveal_strlit("poop");
    reveal_strlit("thumbsdown");
    reveal_strlit("phone");
    reveal_strlit("hankey");
    reveal_strlit("pencil");
    reveal_strlit("-1");
    reveal_strlit("thumbsup");
    reveal_strlit("partying_face");
    reveal_strlit("memo");
    reveal_strlit("sun");
    reveal_strlit("shit");
    reveal_strlit("telephone");
    reveal_strlit("+1");
    reveal_strlit("sunny");
    reveal_strlit("red_apple");
    reveal_strlit("tada_party");
    reveal_strlit("apple");
    assert("thumbsup"@.len() == 8);
    assert("thumbsdown"@.len() == 10);
    assert("telephone"@.len() == 9);
    assert("pencil"@.len() == 6);
    assert("shit"@.len() == 4);
    assert("hankey"@.len() == 6);
    assert("tada_party"@.len() == 10);
    assert("sunny"@.len() == 5);
    assert("red_apple"@.len() == 9);
    assert("+1"@.len() == 2);
    assert("-1"@.len() == 2);
    assert("tada"@.len() == 4);
    assert("rocket"@.len() == 6);
    assert("fire"@.len() == 4);
    assert("sparkles"@.len() == 8);
    assert("100"@.len() == 3);
    assert("ok_hand"@.len() == 7);
    assert("clap"@.len() == 4);
    assert("wave"@.len() == 4);
    assert("pray"@.len() == 4);
    assert("muscle"@.len() == 6);
    assert("raised_hands"@.len() == 12);
    assert("handshake"@.len() == 9);
    assert("heart"@.len() == 5);
    assert("broken_heart"@.len() == 12);
    assert("heart_eyes"@.len() == 10);
    assert("eyes"@.len() == 4);
    assert("brain"@.len() == 5);
    assert("thumbsdown"@[1] != "tada_party"@[1]);
    assert("tada"@[0] != "shit"@[0]);
    assert("rocket"@[0] != "pencil"@[0]);
    assert("rocket"@[0] != "hankey"@[0]);
    assert("fire"@[0] != "shit"@[0]);
    assert("sparkles"@[0] != "thumbsup"@[0]);
    assert("clap"@[0] != "shit"@[0]);
    assert("wave"@[0] != "shit"@[0]);
    assert("pray"@[0] != "shit"@[0]);
    assert("muscle"@[0] != "pencil"@[0]);
    assert("muscle"@[0] != "hankey"@[0]);
    assert("handshake"@[0] != "telephone"@[0]);
    assert("handshake"@[0] != "red_apple"@[0]);
    assert("heart"@[0] != "sunny"@[0]);
    assert("heart_eyes"@[0] != "thumbsdown"@[0]);
    assert("heart_eyes"@[0] != "tada_party"@[0]);
    assert("eyes"@[0] != "shit"@[0]);
    assert("brain"@[0] != "sunny"@[0]);
    assert("👍"@[0] == '\u{1f44d}' && "👍"@.len() > 0);
    assert(canonical_name("+1"@) == emoji_name('\u{1f44d}'));
    assert(canonical_name("thumbsup"@) == emoji_name('\u{1f44d}'));
    assert("👎"@[0] == '\u{1f44e}' && "👎"@.len() > 0);
    assert(canonical_name("-1"@) == emoji_name('\u{1f44e}'));
    assert(canonical_name("thumbsdown"@) == emoji_name('\u{1f44e}'));
    assert("🎉"@[0] == '\u{1f389}' && "🎉"@.len() > 0);
    assert(canonical_name("tada"@) == emoji_name('\u{1f389}'));
    assert("🚀"@[0] == '\u{1f680}' && "🚀"@.len() > 0);
    assert(canonical_name("rocket"@) == emoji_name('\u{1f680}'));
    assert("🔥"@[0] == '\u{1f525}' && "🔥"@.len() > 0);
    assert(canonical_name("fire"@) == emoji_name('\u{1f525}'));
    assert("✨"@[0] == '\u{2728}' && "✨"@.len() > 0);
    assert(canonical_name("sparkles"@) == emoji_name('\u{2728}'));
    assert("💯"@[0] == '\u{1f4af}' && "💯"@.len() > 0);
    assert(canonical_name("100"@) == emoji_name('\u{1f4af}'));
    assert("👌"@[0] == '\u{1f44c}' && "👌"@.len() > 0);
    assert(canonical_name("ok_hand"@) == emoji_name('\u{1f44c}'));
    assert("👏"@[0] == '\u{1f44f}' && "👏"@.len() > 0);
    assert(canonical_name("clap"@) == emoji_name('\u{1f44f}'));
    assert("👋"@[0] == '\u{1f44b}' && "👋"@.len() > 0);
    assert(canonical_name("wave"@) == emoji_name('\u{1f44b}'));
    assert("🙏"@[0] == '\u{1f64f}' && "🙏"@.len() > 0);
    assert(canonical_name("pray"@) == emoji_name('\u{1f64f}'));
    assert("💪"@[0] == '\u{1f4aa}' && "💪"@.len() > 0);
    assert(canonical_name("muscle"@) == emoji_name('\u{1f4aa}'));
    assert("🙌"@[0] == '\u{1f64c}' && "🙌"@.len() > 0);
    assert(canonical_name("raised_hands"@) == emoji_name('\u{1f64c}'));
    assert("🤝"@[0] == '\u{1f91d}' && "🤝"@.len() > 0);
    assert(canonical_name("handshake"@) == emoji_name('\u{1f91d}'));
    assert("❤️"@[0] == '\u{2764}' && "❤️"@.len() > 0);
    assert(canonical_name("heart"@) == emoji_name('\u{2764}'));
    assert("💔"@[0] == '\u{1f494}' && "💔"@.len() > 0);
    assert(canonical_name("broken_heart"@) == emoji_name('\u{1f494}'));
    assert("😍"@[0] == '\u{1f60d}' && "😍"@.len() > 0);
    assert(canonical_name("heart_eyes"@) == emoji_name('\u{1f60d}'));
    assert("👀"@[0] == '\u{1f440}' && "👀"@.len() > 0);
    assert(canonical_name("eyes"@) == emoji_name('\u{1f440}'));
    assert("🧠"@[0] == '\u{1f9e0}' && "🧠"@.len() > 0);
    assert(canonical_name("brain"@) == emoji_name('\u{1f9e0}'));
}

proof fn lemma_names_status(n: Seq<char>)
    ensures
        status_emoji(n) is Some ==> status_emoji(n)->0.len() > 0 && canonical_name(n) == emoji_name(status_emoji(n)->0[0]),
{
    reveal_strlit("white_check_mark");
    reveal_strlit("✅");
    reveal_strlit("heavy_check_mark");
    reveal_strlit("✔️");
    reveal_strlit("x");
    reveal_strlit("❌");
    reveal_strlit("heavy_multiplication_x");
    reveal_strlit("✖️");
    reveal_strlit("warning");
    reveal_strlit("⚠️");
    reveal_strlit("exclamation");
    reveal_strlit("❗");
    reveal_strlit("question");
    reveal_strlit("❓");
    reveal_strlit("grey_exclamation");
    reveal_strlit("❕");
    reveal_strlit("grey_question");
    reveal_strlit("❔");
    reveal_strlit("bangbang");
    reveal_strlit("‼️");
    reveal_strlit("interrobang");
    reveal_strlit("⁉️");
    reveal_strlit("no_entry");
    reveal_strlit("⛔");
    reveal_strlit("no_entry_sign");
    reveal_strlit("🚫");
    reveal_strlit("construction");
    reveal_strlit("🚧");
    reveal_strlit("stop_sign");
    reveal_strlit("🛑");
    reveal_strlit("poop");
    reveal_strlit("thumbsdown");
    reveal_strlit("phone");
    reveal_strlit("hankey");
    reveal_strlit("pencil");
    reveal_strlit("-1");
    reveal_strlit("thumbsup");
    reveal_strlit("partying_face");
    reveal_strlit("memo");
    reveal_strlit("sun");
    reveal_strlit("shit");
    reveal_strlit("telephone");
    reveal_strlit("+1");
    reveal_strlit("sunny");
    reveal_strlit("red_apple");
    reveal_strlit("tada_party");
    reveal_strlit("apple");
    assert("thumbsup"@.len() == 8);
    assert("thumbsdown"@.len() == 10);
    assert("telephone"@.len() == 9);
    assert("pencil"@.len() == 6);
    assert("shit"@.len() == 4);
    assert("hankey"@.len() == 6);
    assert("tada_party"@.len() == 10);
    assert("sunny"@.len() == 5);
    assert("red_apple"@.len() == 9);
    assert("white_check_mark"@.len() == 16);
    assert("heavy_check_mark"@.len() == 16);
    assert("x"@.len() == 1);
    assert("heavy_multiplication_x"@.len() == 22);
    assert("warning"@.len() == 7);
    assert("exclamation"@.len() == 11);
    assert("question"@.len() == 8);
    assert("grey_exclamation"@.len() == 16);
    assert("grey_question"@.len() == 13);
    assert("bangbang"@.len() == 8);
    assert("interrobang"@.len() == 11);
    assert("no_entry"@.len() == 8);
    assert("no_entry_sign"@.len() == 13);
    assert("construction"@.len() == 12);
    assert("stop_sign"@.len() == 9);
    assert("question"@[0] != "thumbsup"@[0]);
    assert("bangbang"@[0] != "thumbsup"@[0]);
    assert("no_entry"@[0] != "thumbsup"@[0]);
    assert("stop_sign"@[0] != "telephone"@[0]);
    assert("stop_sign"@[0] != "red_apple"@[0]);
    assert("✅"@[0] == '\u{2705}' && "✅"@.len() > 0);
    assert(canonical_name("white_check_mark"@) == emoji_name('\u{2705}'));
    assert("✔️"@[0] == '\u{2714}' && "✔️"@.len() > 0);
    assert(canonical_name("heavy_check_mark"@) == emoji_name('\u{2714}'));
    assert("❌"@[0] == '\u{274c}' && "❌"@.len() > 0);
    assert(canonical_name("x"@) == emoji_name('\u{274c}'));
    assert("✖️"@[0] == '\u{2716}' && "✖️"@.len() > 0);
    assert(canonical_name("heavy_multiplication_x"@) == emoji_name('\u{2716}'));
    assert("⚠️"@[0] == '\u{26a0}' && "⚠️"@.len() > 0);
    assert(canonical_name("warning"@) == emoji_name('\u{26a0}'));
    assert("❗"@[0] == '\u{2757}' && "❗"@.len() > 0);
    assert(canonical_name("exclamation"@) == emoji_name('\u{2757}'));
    assert("❓"@[0] == '\u{2753}' && "❓"@.len() > 0);
    assert(canonical_name("question"@) == emoji_name('\u{2753}'));
    assert("❕"@[0] == '\u{2755}' && "❕"@.len() > 0);
    assert(canonical_name("grey_exclamation"@) == emoji_name('\u{2755}'));
    assert("❔"@[0] == '\u{2754}' && "❔"@.len() > 0);
    assert(canonical_name("grey_question"@) == emoji_name('\u{2754}'));
    assert("‼️"@[0] == '\u{203c}' && "‼️"@.len() > 0);
    assert(canonical_name("bangbang"@) == emoji_name('\u{203c}'));
    assert("⁉️"@[0] == '\u{2049}' && "⁉️"@.len() > 0);
    assert(canonical_name("interrobang"@) == emoji_name('\u{2049}'));
    assert("⛔"@[0] == '\u{26d4}' && "⛔"@.len() > 0);
    assert(canonical_name("no_entry"@) == emoji_name('\u{26d4}'));
    assert("🚫"@[0] == '\u{1f6ab}' && "🚫"@.len() > 0);
    assert(canonical_name("no_entry_sign"@) == emoji_name('\u{1f6ab}'));
    assert("🚧"@[0] == '\u{1f6a7}' && "🚧"@.len() > 0);
    assert(canonical_name("construction"@) == emoji_name('\u{1f6a7}'));
    assert("🛑"@[0] == '\u{1f6d1}' && "🛑"@.len() > 0);
    assert(canonical_name("stop_sign"@) == emoji_name('\u{1f6d1}'));
}

proof fn lemma_names_face(n: Seq<char>)
    ensures
        face_emoji(n) is Some ==> face_emoji(n)->0.len() > 0 && canonical_name(n) == emoji_name(face_emoji(n)->0[0]),
{
    reveal_strlit("smile");
    reveal_strlit("😄");
    reveal_strlit("smiley");
    reveal_strlit("😃");
    reveal_strlit("grin");
    reveal_strlit("😁");
    reveal_strlit("grinning");
    reveal_strlit("😀");
    reveal_strlit("joy");
    reveal_strlit("😂");
    reveal_strlit("rofl");
    reveal_strlit("🤣");
    reveal_strlit("laughing");
    reveal_strlit("😆");
    reveal_strlit("sweat_smile");
    reveal_strlit("😅");
    reveal_strlit("wink");
    reveal_strlit("😉");
    reveal_strlit("blush");
    reveal_strlit("😊");
    reveal_strlit("innocent");
    reveal_strlit("😇");
    reveal_strlit("thinking");
    reveal_strlit("🤔");
    reveal_strlit("neutral_face");
    reveal_strlit("😐");
    reveal_strlit("expressionless");
    reveal_strlit("😑");
    reveal_strlit("no_mouth");
    reveal_strlit("😶");
    reveal_strlit("smirk");
    reveal_strlit("😏");
    reveal_strlit("unamused");
    reveal_strlit("😒");
    reveal_strlit("roll_eyes");
    reveal_strlit("🙄");
    reveal_strlit("grimacing");
    reveal_strlit("😬");
    reveal_strlit("face_with_raised_eyebrow");
    reveal_strlit("🤨");
    reveal_strlit("confused");
    reveal_strlit("😕");
    reveal_strlit("worried");
    reveal_strlit("😟");
    reveal_strlit("frowning");
    reveal_strlit("😦");
    reveal_strlit("anguished");
    reveal_strlit("😧");
    reveal_strlit("open_mouth");
    reveal_strlit("😮");
    reveal_strlit("hushed");
    reveal_strlit("😯");
    reveal_strlit("astonished");
    reveal_strlit("😲");
    reveal_strlit("scream");
    reveal_strlit("😱");
    reveal_strlit("tired_face");
    reveal_strlit("😫");
    reveal_strlit("weary");
    reveal_strlit("😩");
    reveal_strlit("sleepy");
    reveal_strlit("😪");
    reveal_strlit("sleeping");
    reveal_strlit("😴");
    reveal_strlit("yum");
    reveal_strlit("😋");
    reveal_strlit("stuck_out_tongue");
    reveal_strlit("😛");
    reveal_strlit("stuck_out_tongue_winking_eye");
    reveal_strlit("😜");
    reveal_strlit("zany_face");
    reveal_strlit("🤪");
    reveal_strlit("face_with_hand_over_mouth");
    reveal_strlit("🤭");
    reveal_strlit("shushing_face");
    reveal_strlit("🤫");
    reveal_strlit("face_with_monocle");
    reveal_strlit("🧐");
    reveal_strlit("nerd_face");
    reveal_strlit("🤓");
    reveal_strlit("sunglasses");
    reveal_strlit("😎");
    reveal_strlit("star_struck");
    reveal_strlit("🤩");
    reveal_strlit("partying_face");
    reveal_strlit("🥳");
    reveal_strlit("cry");
    reveal_strlit("😢");
    reveal_strlit("sob");
    reveal_strlit("😭");
    reveal_strlit("rage");
    reveal_strlit("😡");
    reveal_strlit("angry");
    reveal_strlit("😠");
    reveal_strlit("triumph");
    reveal_strlit("😤");
    reveal_strlit("imp");
    reveal_strlit("👿");
    reveal_strlit("smiling_imp");
    reveal_strlit("😈");
    reveal_strlit("skull");
    reveal_strlit("💀");
    reveal_strlit("skull_and_crossbones");
    reveal_strlit("☠️");
    reveal_strlit("alien");
    reveal_strlit("👽");
    reveal_strlit("robot");
    reveal_strlit("🤖");
    reveal_strlit("ghost");
    reveal_strlit("👻");
    reveal_strlit("poop");
    reveal_strlit("thumbsdown");
    reveal_strlit("phone");
    reveal_strlit("hankey");
    reveal_strlit("pencil");
    reveal_strlit("-1");
    reveal_strlit("thumbsup");
    reveal_strlit("partying_face");
    reveal_strlit("memo");
    reveal_strlit("sun");
    reveal_strlit("shit");
    reveal_strlit("telephone");
    reveal_strlit("+1");
    reveal_strlit("sunny");
    reveal_strlit("red_apple");
    reveal_strlit("tada_party");
    reveal_strlit("apple");
    assert("thumbsup"@.len() == 8);
    assert("thumbsdown"@.len() == 10);
    assert("telephone"@.len() == 9);
    assert("pencil"@.len() == 6);
    assert("shit"@.len() == 4);
    assert("hankey"@.len() == 6);
    assert("tada_party"@.len() == 10);
    assert("sunny"@.len() == 5);
    assert("red_apple"@.len() == 9);
    assert("smile"@.len() == 5);
    assert("smiley"@.len() == 6);
    assert("grin"@.len() == 4);
    assert("grinning"@.len() == 8);
    assert("joy"@.len() == 3);
    assert("rofl"@.len() == 4);
    assert("laughing"@.len() == 8);
    assert("sweat_smile"@.len() == 11);
    assert("wink"@.len() == 4);
    assert("blush"@.len() == 5);
    assert("innocent"@.len() == 8);
    assert("thinking"@.len() == 8);
    assert("neutral_face"@.len() == 12);
    assert("expressionless"@.len() == 14);
    assert("no_mouth"@.len() == 8);
    assert("smirk"@.len() == 5);
    assert("unamused"@.len() == 8);
    assert("roll_eyes"@.len() == 9);
    assert("grimacing"@.len() == 9);
    assert("face_with_raised_eyebrow"@.len() == 24);
    assert("confused"@.len() == 8);
    assert("worried"@.len() == 7);
    assert("frowning"@.len() == 8);
    assert("anguished"@.len() == 9);
    assert("open_mouth"@.len() == 10);
    assert("hushed"@.len() == 6);
    assert("astonished"@.len() == 10);
    assert("scream"@.len() == 6);
    assert("tired_face"@.len() == 10);
    assert("weary"@.len() == 5);
    assert("sleepy"@.len() == 6);
    assert("sleeping"@.len() == 8);
    assert("yum"@.len() == 3);
    assert("stuck_out_tongue"@.len() == 16);
    assert("stuck_out_tongue_winking_eye"@.len() == 28);
    assert("zany_face"@.len() == 9);
    assert("face_with_hand_over_mouth"@.len() == 25);
    assert("shushing_face"@.len() == 13);
    assert("face_with_monocle"@.len() == 17);
    assert("nerd_face"@.len() == 9);
    assert("sunglasses"@.len() == 10);
    assert("star_struck"@.len() == 11);
    assert("partying_face"@.len() == 13);
    assert("cry"@.len() == 3);
    assert("sob"@.len() == 3);
    assert("rage"@.len() == 4);
    assert("angry"@.len() == 5);
    assert("triumph"@.len() == 7);
    assert("imp"@.len() == 3);
    assert("smiling_imp"@.len() == 11);
    assert("skull"@.len() == 5);
    assert("skull_and_crossbones"@.len() == 20);
    assert("alien"@.len() == 5);
    assert("robot"@.len() == 5);
    assert("ghost"@.len() == 5);
    assert("smile"@[1] != "sunny"@[1]);
    assert("smiley"@[0] != "pencil"@[0]);
    assert("smiley"@[0] != "hankey"@[0]);
    assert("grin"@[0] != "shit"@[0]);
    assert("grinning"@[0] != "thumbsup"@[0]);
    assert("rofl"@[0] != "shit"@[0]);
    assert("laughing"@[0] != "thumbsup"@[0]);
    assert("wink"@[0] != "shit"@[0]);
    assert("blush"@[0] != "sunny"@[0]);
    assert("innocent"@[0] != "thumbsup"@[0]);
    assert("thinking"@[2] != "thumbsup"@[2]);
    assert("no_mouth"@[0] != "thumbsup"@[0]);
    assert("smirk"@[1] != "sunny"@[1]);
    assert("unamused"@[0] != "thumbsup"@[0]);
    assert("roll_eyes"@[0] != "telephone"@[0]);
    assert("roll_eyes"@[1] != "red_apple"@[1]);
    assert("grimacing"@[0] != "telephone"@[0]);
    assert("grimacing"@[0] != "red_apple"@[0]);
    assert("confused"@[0] != "thumbsup"@[0]);
    assert("frowning"@[0] != "thumbsup"@[0]);
    assert("anguished"@[0] != "telephone"@[0]);
    assert("anguished"@[0] != "red_apple"@[0]);
    assert("open_mouth"@[0] != "thumbsdown"@[0]);
    assert("open_mouth"@[0] != "tada_party"@[0]);
    assert("hushed"@[0] != "pencil"@[0]);
    assert("hushed"@[1] != "hankey"@[1]);
    assert("astonished"@[0] != "thumbsdown"@[0]);
    assert("astonished"@[0] != "tada_party"@[0]);
    assert("scream"@[0] != "pencil"@[0]);
    assert("scream"@[0] != "hankey"@[0]);
    assert("tired_face"@[1] != "thumbsdown"@[1]);
    assert("tired_face"@[1] != "tada_party"@[1]);
    assert("weary"@[0] != "sunny"@[0]);
    assert("sleepy"@[0] != "pencil"@[0]);
    assert("sleepy"@[0] != "hankey"@[0]);
    assert("sleeping"@[0] != "thumbsup"@[0]);
    assert("zany_face"@[0] != "telephone"@[0]);
    assert("zany_face"@[0] != "red_apple"@[0]);
    assert("nerd_face"@[0] != "telephone"@[0]);
    assert("nerd_face"@[0] != "red_apple"@[0]);
    assert("sunglasses"@[0] != "thumbsdown"@[0]);
    assert("sunglasses"@[0] != "tada_party"@[0]);
    assert("rage"@[0] != "shit"@[0]);
    assert("angry"@[0] != "sunny"@[0]);
    assert("skull"@[1] != "sunny"@[1]);
    assert("alien"@[0] != "sunny"@[0]);
    assert("robot"@[0] != "sunny"@[0]);
    assert("ghost"@[0] != "sunny"@[0]);
    assert("😄"@[0] == '\u{1f604}' && "😄"@.len() > 0);
    assert(canonical_name("smile"@) == emoji_name('\u{1f604}'));
    assert("😃"@[0] == '\u{1f603}' && "😃"@.len() > 0);
    assert(canonical_name("smiley"@) == emoji_name('\u{1f603}'));
    assert("😁"@[0] == '\u{1f601}' && "😁"@.len() > 0);
    assert(canonical_name("grin"@) == emoji_name('\u{1f601}'));
    assert("😀"@[0] == '\u{1f600}' && "😀"@.len() > 0);
    assert(canonical_name("grinning"@) == emoji_name('\u{1f600}'));
    assert("😂"@[0] == '\u{1f602}' && "😂"@.len() > 0);
    assert(canonical_name("joy"@) == emoji_name('\u{1f602}'));
    assert("🤣"@[0] == '\u{1f923}' && "🤣"@.len() > 0);
    assert(canonical_name("rofl"@) == emoji_name('\u{1f923}'));
    assert("😆"@[0] == '\u{1f606}' && "😆"@.len() > 0);
    assert(canonical_name("laughing"@) == emoji_name('\u{1f606}'));
    assert("😅"@[0] == '\u{1f605}' && "😅"@.len() > 0);
    assert(canonical_name("sweat_smile"@) == emoji_name('\u{1f605}'));
    assert("😉"@[0] == '\u{1f609}' && "😉"@.len() > 0);
    assert(canonical_name("wink"@) == emoji_name('\u{1f609}'));
    assert("😊"@[0] == '\u{1f60a}' && "😊"@.len() > 0);
    assert(canonical_name("blush"@) == emoji_name('\u{1f60a}'));
    assert("😇"@[0] == '\u{1f607}' && "😇"@.len() > 0);
    assert(canonical_name("innocent"@) == emoji_name('\u{1f607}'));
    assert("🤔"@[0] == '\u{1f914}' && "🤔"@.len() > 0);
    assert(canonical_name("thinking"@) == emoji_name('\u{1f914}'));
    assert("😐"@[0] == '\u{1f610}' && "😐"@.len() > 0);
    assert(canonical_name("neutral_face"@) == emoji_name('\u{1f610}'));
    assert("😑"@[0] == '\u{1f611}' && "😑"@.len() > 0);
    assert(canonical_name("expressionless"@) == emoji_name('\u{1f611}'));
    assert("😶"@[0] == '\u{1f636}' && "😶"@.len() > 0);
    assert(canonical_name("no_mouth"@) == emoji_name('\u{1f636}'));
    assert("😏"@[0] == '\u{1f60f}' && "😏"@.len() > 0);
    assert(canonical_name("smirk"@) == emoji_name('\u{1f60f}'));
    assert("😒"@[0] == '\u{1f612}' && "😒"@.len() > 0);
    assert(canonical_name("unamused"@) == emoji_name('\u{1f612}'));
    assert("🙄"@[0] == '\u{1f644}' && "🙄"@.len() > 0);
    assert(canonical_name("roll_eyes"@) == emoji_name('\u{1f644}'));
    assert("😬"@[0] == '\u{1f62c}' && "😬"@.len() > 0);
    assert(canonical_name("grimacing"@) == emoji_name('\u{1f62c}'));
    assert("🤨"@[0] == '\u{1f928}' && "🤨"@.len() > 0);
    assert(canonical_name("face_with_raised_eyebrow"@) == emoji_name('\u{1f928}'));
    assert("😕"@[0] == '\u{1f615}' && "😕"@.len() > 0);
    assert(canonical_name("confused"@) == emoji_name('\u{1f615}'));
    assert("😟"@[0] == '\u{1f61f}' && "😟"@.len() > 0);
    assert(canonical_name("worried"@) == emoji_name('\u{1f61f}'));
    assert("😦"@[0] == '\u{1f626}' && "😦"@.len() > 0);
    assert(canonical_name("frowning"@) == emoji_name('\u{1f626}'));
    assert("😧"@[0] == '\u{1f627}' && "😧"@.len() > 0);
    assert(canonical_name("anguished"@) == emoji_name('\u{1f627}'));
    assert("😮"@[0] == '\u{1f62e}' && "😮"@.len() > 0);
    assert(canonical_name("open_mouth"@) == emoji_name('\u{1f62e}'));
    assert("😯"@[0] == '\u{1f62f}' && "😯"@.len() > 0);
    assert(canonical_name("hushed"@) == emoji_name('\u{1f62f}'));
    assert("😲"@[0] == '\u{1f632}' && "😲"@.len() > 0);
    assert(canonical_name("astonished"@) == emoji_name('\u{1f632}'));
    assert("😱"@[0] == '\u{1f631}' && "😱"@.len() > 0);
    assert(canonical_name("scream"@) == emoji_name('\u{1f631}'));
    assert("😫"@[0] == '\u{1f62b}' && "😫"@.len() > 0);
    assert(canonical_name("tired_face"@) == emoji_name('\u{1f62b}'));
    assert("😩"@[0] == '\u{1f629}' && "😩"@.len() > 0);
    assert(canonical_name("weary"@) == emoji_name('\u{1f629}'));
    assert("😪"@[0] == '\u{1f62a}' && "😪"@.len() > 0);
    assert(canonical_name("sleepy"@) == emoji_name('\u{1f62a}'));
    assert("😴"@[0] == '\u{1f634}' && "😴"@.len() > 0);
    assert(canonical_name("sleeping"@) == emoji_name('\u{1f634}'));
    assert("😋"@[0] == '\u{1f60b}' && "😋"@.len() > 0);
    assert(canonical_name("yum"@) == emoji_name('\u{1f60b}'));
    assert("😛"@[0] == '\u{1f61b}' && "😛"@.len() > 0);
    assert(canonical_name("stuck_out_tongue"@) == emoji_name('\u{1f61b}'));
    assert("😜"@[0] == '\u{1f61c}' && "😜"@.len() > 0);
    assert(canonical_name("stuck_out_tongue_winking_eye"@) == emoji_name('\u{1f61c}'));
    assert("🤪"@[0] == '\u{1f92a}' && "🤪"@.len() > 0);
    assert(canonical_name("zany_face"@) == emoji_name('\u{1f92a}'));
    assert("🤭"@[0] == '\u{1f92d}' && "🤭"@.len() > 0);
    assert(canonical_name("face_with_hand_over_mouth"@) == emoji_name('\u{1f92d}'));
    assert("🤫"@[0] == '\u{1f92b}' && "🤫"@.len() > 0);
    assert(canonical_name("shushing_face"@) == emoji_name('\u{1f92b}'));
    assert("🧐"@[0] == '\u{1f9d0}' && "🧐"@.len() > 0);
    assert(canonical_name("face_with_monocle"@) == emoji_name('\u{1f9d0}'));
    assert("🤓"@[0] == '\u{1f913}' && "🤓"@.len() > 0);
    assert(canonical_name("nerd_face"@) == emoji_name('\u{1f913}'));
    assert("😎"@[0] == '\u{1f60e}' && "😎"@.len() > 0);
    assert(canonical_name("sunglasses"@) == emoji_name('\u{1f60e}'));
    assert("🤩"@[0] == '\u{1f929}' && "🤩"@.len() > 0);
    assert(canonical_name("star_struck"@) == emoji_name('\u{1f929}'));
    assert("🥳"@[0] == '\u{1f973}' && "🥳"@.len() > 0);
    assert(canonical_name("partying_face"@) == emoji_name('\u{1f973}'));
    assert("😢"@[0] == '\u{1f622}' && "😢"@.len() > 0);
    assert(canonical_name("cry"@) == emoji_name('\u{1f622}'));
    assert("😭"@[0] == '\u{1f62d}' && "😭"@.len() > 0);
    assert(canonical_name("sob"@) == emoji_name('\u{1f62d}'));
    assert("😡"@[0] == '\u{1f621}' && "😡"@.len() > 0);
    assert(canonical_name("rage"@) == emoji_name('\u{1f621}'));
    assert("😠"@[0] == '\u{1f620}' && "😠"@.len() > 0);
    assert(canonical_name("angry"@) == emoji_name('\u{1f620}'));
    assert("😤"@[0] == '\u{1f624}' && "😤"@.len() > 0);
    assert(canonical_name("triumph"@) == emoji_name('\u{1f624}'));
    assert("👿"@[0] == '\u{1f47f}' && "👿"@.len() > 0);
    assert(canonical_name("imp"@) == emoji_name('\u{1f47f}'));
    assert("😈"@[0] == '\u{1f608}' && "😈"@.len() > 0);
    assert(canonical_name("smiling_imp"@) == emoji_name('\u{1f608}'));
    assert("💀"@[0] == '\u{1f480}' && "💀"@.len() > 0);
    assert(canonical_name("skull"@) == emoji_name('\u{1f480}'));
    assert("☠️"@[0] == '\u{2620}' && "☠️"@.len() > 0);
    assert(canonical_name("skull_and_crossbones"@) == emoji_name('\u{2620}'));
    assert("👽"@[0] == '\u{1f47d}' && "👽"@.len() > 0);
    assert(canonical_name("alien"@) == emoji_name('\u{1f47d}'));
    assert("🤖"@[0] == '\u{1f916}' && "🤖"@.len() > 0);
    assert(canonical_name("robot"@) == emoji_name('\u{1f916}'));
    assert("👻"@[0] == '\u{1f47b}' && "👻"@.len() > 0);
    assert(canonical_name("ghost"@) == emoji_name('\u{1f47b}'));
}

proof fn lemma_names_tech(n: Seq<char>)
    ensures
        tech_emoji(n) is Some ==> tech_emoji(n)->0.len() > 0 && canonical_name(n) == emoji_name(tech_emoji(n)->0[0]),
{
    reveal_strlit("computer");
    reveal_strlit("💻");
    reveal_strlit("desktop_computer");
    reveal_strlit("🖥️");
    reveal_strlit("keyboard");
    reveal_strlit("⌨️");
    reveal_strlit("mouse");
    reveal_strlit("🖱️");
    reveal_strlit("iphone");
    reveal_strlit("📱");
    reveal_strlit("phone");
    reveal_strlit("telephone");
    reveal_strlit("☎️");
    reveal_strlit("package");
    reveal_strlit("📦");
    reveal_strlit("memo");
    reveal_strlit("pencil");
    reveal_strlit("📝");
    reveal_strlit("pencil2");
    reveal_strlit("✏️");
    reveal_strlit("bulb");
    reveal_strlit("💡");
    reveal_strlit("wrench");
    reveal_strlit("🔧");
    reveal_strlit("hammer");
    reveal_strlit("🔨");
    reveal_strlit("hammer_and_wrench");
    reveal_strlit("🛠️");
    reveal_strlit("gear");
    reveal_strlit("⚙️");
    reveal_strlit("nut_and_bolt");
    reveal_strlit("🔩");
    reveal_strlit("bug");
    reveal_strlit("🐛");
    reveal_strlit("lock");
    reveal_strlit("🔒");
    reveal_strlit("unlock");
    reveal_strlit("🔓");
    reveal_strlit("key");
    reveal_strlit("🔑");
    reveal_strlit("shield");
    reveal_strlit("🛡️");
    reveal_strlit("satellite");
    reveal_strlit("🛰️");
    reveal_strlit("zap");
    reveal_strlit("⚡");
    reveal_strlit("boom");
    reveal_strlit("💥");
    reveal_strlit("bomb");
    reveal_strlit("💣");
    reveal_strlit("link");
    reveal_strlit("🔗");
    reveal_strlit("paperclip");
    reveal_strlit("📎");
    reveal_strlit("books");
    reveal_strlit("📚");
    reveal_strlit("book");
    reveal_strlit("📖");
    reveal_strlit("page_facing_up");
    reveal_strlit("📄");
    reveal_strlit("scroll");
    reveal_strlit("📜");
    reveal_strlit("clipboard");
    reveal_strlit("📋");
    reveal_strlit("calendar");
    reveal_strlit("📅");
    reveal_strlit("stopwatch");
    reveal_strlit("⏱️");
    reveal_strlit("alarm_clock");
    reveal_strlit("⏰");
    reveal_strlit("hourglass");
    reveal_strlit("⌛");
    reveal_strlit("hourglass_flowing_sand");
    reveal_strlit("⏳");
    reveal_strlit("poop");
    reveal_strlit("thumbsdown");
    reveal_strlit("phone");
    reveal_strlit("hankey");
    reveal_strlit("pencil");
    reveal_strlit("-1");
    reveal_strlit("thumbsup");
    reveal_strlit("partying_face");
    reveal_strlit("memo");
    reveal_strlit("sun");
    reveal_strlit("shit");
    reveal_strlit("telephone");
    reveal_strlit("+1");
    reveal_strlit("sunny");
    reveal_strlit("red_apple");
    reveal_strlit("tada_party");
    reveal_strlit("apple");
    assert("thumbsup"@.len() == 8);
    assert("thumbsdown"@.len() == 10);
    assert("telephone"@.len() == 9);
    assert("pencil"@.len() == 6);
    assert("shit"@.len() == 4);
    assert("hankey"@.len() == 6);
    assert("tada_party"@.len() == 10);
    assert("sunny"@.len() == 5);
    assert("red_apple"@.len() == 9);
    assert("computer"@.len() == 8);
    assert("desktop_computer"@.len() == 16);
    assert("keyboard"@.len() == 8);
    assert("mouse"@.len() == 5);
    assert("iphone"@.len() == 6);
    assert("phone"@.len() == 5);
    assert("package"@.len() == 7);
    assert("memo"@.len() == 4);
    assert("pencil2"@.len() == 7);
    assert("bulb"@.len() == 4);
    assert("wrench"@.len() == 6);
    assert("hammer"@.len() == 6);
    assert("hammer_and_wrench"@.len() == 17);
    assert("gear"@.len() == 4);
    assert("nut_and_bolt"@.len() == 12);
    assert("bug"@.len() == 3);
    assert("lock"@.len() == 4);
    assert("unlock"@.len() == 6);
    assert("key"@.len() == 3);
    assert("shield"@.len() == 6);
    assert("satellite"@.len() == 9);
    assert("zap"@.len() == 3);
    assert("boom"@.len() == 4);
    assert("bomb"@.len() == 4);
    assert("link"@.len() == 4);
    assert("paperclip"@.len() == 9);
    assert("books"@.len() == 5);
    assert("book"@.len() == 4);
    assert("page_facing_up"@.len() == 14);
    assert("scroll"@.len() == 6);
    assert("clipboard"@.len() == 9);
    assert("calendar"@.len() == 8);
    assert("stopwatch"@.len() == 9);
    assert("alarm_clock"@.len() == 11);
    assert("hourglass"@.len() == 9);
    assert("hourglass_flowing_sand"@.len() == 22);
    assert("computer"@[0] != "thumbsup"@[0]);
    assert("keyboard"@[0] != "thumbsup"@[0]);
    assert("mouse"@[0] != "sunny"@[0]);
    assert("iphone"@[0] != "pencil"@[0]);
    assert("iphone"@[0] != "hankey"@[0]);
    assert("phone"@[0] != "sunny"@[0]);
    assert("telephone"@[0] != "red_apple"@[0]);
    assert("memo"@[0] != "shit"@[0]);
    assert("pencil"@[0] != "hankey"@[0]);
    assert("bulb"@[0] != "shit"@[0]);
    assert("wrench"@[0] != "pencil"@[0]);
    assert("wrench"@[0] != "hankey"@[0]);
    assert("hammer"@[0] != "pencil"@[0]);
    assert("hammer"@[2] != "hankey"@[2]);
    assert("gear"@[0] != "shit"@[0]);
    assert("lock"@[0] != "shit"@[0]);
    assert("unlock"@[0] != "pencil"@[0]);
    assert("unlock"@[0] != "hankey"@[0]);
    assert("shield"@[0] != "pencil"@[0]);
    assert("shield"@[0] != "hankey"@[0]);
    assert("satellite"@[0] != "telephone"@[0]);
    assert("satellite"@[0] != "red_apple"@[0]);
    assert("boom"@[0] != "shit"@[0]);
    assert("bomb"@[0] != "shit"@[0]);
    assert("link"@[0] != "shit"@[0]);
    assert("paperclip"@[0] != "telephone"@[0]);
    assert("paperclip"@[0] != "red_apple"@[0]);
    assert("books"@[0] != "sunny"@[0]);
    assert("book"@[0] != "shit"@[0]);
    assert("scroll"@[0] != "pencil"@[0]);
    assert("scroll"@[0] != "hankey"@[0]);
    assert("clipboard"@[0] != "telephone"@[0]);
    assert("clipboard"@[0] != "red_apple"@[0]);
    assert("calendar"@[0] != "thumbsup"@[0]);
    assert("stopwatch"@[0] != "telephone"@[0]);
    assert("stopwatch"@[0] != "red_apple"@[0]);
    assert("hourglass"@[0] != "telephone"@[0]);
    assert("hourglass"@[0] != "red_apple"@[0]);
    assert("💻"@[0] == '\u{1f4bb}' && "💻"@.len() > 0);
    assert(canonical_name("computer"@) == emoji_name('\u{1f4bb}'));
    assert("🖥️"@[0] == '\u{1f5a5}' && "🖥️"@.len() > 0);
    assert(canonical_name("desktop_computer"@) == emoji_name('\u{1f5a5}'));
    assert("⌨️"@[0] == '\u{2328}' && "⌨️"@.len() > 0);
    assert(canonical_name("keyboard"@) == emoji_name('\u{2328}'));
    assert("🖱️"@[0] == '\u{1f5b1}' && "🖱️"@.len() > 0);
    assert(canonical_name("mouse"@) == emoji_name('\u{1f5b1}'));
    assert("📱"@[0] == '\u{1f4f1}' && "📱"@.len() > 0);
    assert(canonical_name("iphone"@) == emoji_name('\u{1f4f1}'));
    assert("☎️"@[0] == '\u{260e}' && "☎️"@.len() > 0);
    assert(canonical_name("phone"@) == emoji_name('\u{260e}'));
    assert(canonical_name("telephone"@) == emoji_name('\u{260e}'));
    assert("📦"@[0] == '\u{1f4e6}' && "📦"@.len() > 0);
    assert(canonical_name("package"@) == emoji_name('\u{1f4e6}'));
    assert("📝"@[0] == '\u{1f4dd}' && "📝"@.len() > 0);
    assert(canonical_name("memo"@) == emoji_name('\u{1f4dd}'));
    assert(canonical_name("pencil"@) == emoji_name('\u{1f4dd}'));
    assert("✏️"@[0] == '\u{270f}' && "✏️"@.len() > 0);
    assert(canonical_name("pencil2"@) == emoji_name('\u{270f}'));
    assert("💡"@[0] == '\u{1f4a1}' && "💡"@.len() > 0);
    assert(canonical_name("bulb"@) == emoji_name('\u{1f4a1}'));
    assert("🔧"@[0] == '\u{1f527}' && "🔧"@.len() > 0);
    assert(canonical_name("wrench"@) == emoji_name('\u{1f527}'));
    assert("🔨"@[0] == '\u{1f528}' && "🔨"@.len() > 0);
    assert(canonical_name("hammer"@) == emoji_name('\u{1f528}'));
    assert("🛠️"@[0] == '\u{1f6e0}' && "🛠️"@.len() > 0);
    assert(canonical_name("hammer_and_wrench"@) == emoji_name('\u{1f6e0}'));
    assert("⚙️"@[0] == '\u{2699}' && "⚙️"@.len() > 0);
    assert(canonical_name("gear"@) == emoji_name('\u{2699}'));
    assert("🔩"@[0] == '\u{1f529}' && "🔩"@.len() > 0);
    assert(canonical_name("nut_and_bolt"@) == emoji_name('\u{1f529}'));
    assert("🐛"@[0] == '\u{1f41b}' && "🐛"@.len() > 0);
    assert(canonical_name("bug"@) == emoji_name('\u{1f41b}'));
    assert("🔒"@[0] == '\u{1f512}' && "🔒"@.len() > 0);
    assert(canonical_name("lock"@) == emoji_name('\u{1f512}'));
    assert("🔓"@[0] == '\u{1f513}' && "🔓"@.len() > 0);
    assert(canonical_name("unlock"@) == emoji_name('\u{1f513}'));
    assert("🔑"@[0] == '\u{1f511}' && "🔑"@.len() > 0);
    assert(canonical_name("key"@) == emoji_name('\u{1f511}'));
    assert("🛡️"@[0] == '\u{1f6e1}' && "🛡️"@.len() > 0);
    assert(canonical_name("shield"@) == emoji_name('\u{1f6e1}'));
    assert("🛰️"@[0] == '\u{1f6f0}' && "🛰️"@.len() > 0);
    assert(canonical_name("satellite"@) == emoji_name('\u{1f6f0}'));
    assert("⚡"@[0] == '\u{26a1}' && "⚡"@.len() > 0);
    assert(canonical_name("zap"@) == emoji_name('\u{26a1}'));
    assert("💥"@[0] == '\u{1f4a5}' && "💥"@.len() > 0);
    assert(canonical_name("boom"@) == emoji_name('\u{1f4a5}'));
    assert("💣"@[0] == '\u{1f4a3}' && "💣"@.len() > 0);
    assert(canonical_name("bomb"@) == emoji_name('\u{1f4a3}'));
    assert("🔗"@[0] == '\u{1f517}' && "🔗"@.len() > 0);
    assert(canonical_name("link"@) == emoji_name('\u{1f517}'));
    assert("📎"@[0] == '\u{1f4ce}' && "📎"@.len() > 0);
    assert(canonical_name("paperclip"@) == emoji_name('\u{1f4ce}'));
    assert("📚"@[0] == '\u{1f4da}' && "📚"@.len() > 0);
    assert(canonical_name("books"@) == emoji_name('\u{1f4da}'));
    assert("📖"@[0] == '\u{1f4d6}' && "📖"@.len() > 0);
    assert(canonical_name("book"@) == emoji_name('\u{1f4d6}'));
    assert("📄"@[0] == '\u{1f4c4}' && "📄"@.len() > 0);
    assert(canonical_name("page_facing_up"@) == emoji_name('\u{1f4c4}'));
    assert("📜"@[0] == '\u{1f4dc}' && "📜"@.len() > 0);
    assert(canonical_name("scroll"@) == emoji_name('\u{1f4dc}'));
    assert("📋"@[0] == '\u{1f4cb}' && "📋"@.len() > 0);
    assert(canonical_name("clipboard"@) == emoji_name('\u{1f4cb}'));
    assert("📅"@[0] == '\u{1f4c5}' && "📅"@.len() > 0);
    assert(canonical_name("calendar"@) == emoji_name('\u{1f4c5}'));
    assert("⏱️"@[0] == '\u{23f1}' && "⏱️"@.len() > 0);
    assert(canonical_name("stopwatch"@) == emoji_name('\u{23f1}'));
    assert("⏰"@[0] == '\u{23f0}' && "⏰"@.len() > 0);
    assert(canonical_name("alarm_clock"@) == emoji_name('\u{23f0}'));
    assert("⌛"@[0] == '\u{231b}' && "⌛"@.len() > 0);
    assert(canonical_name("hourglass"@) == emoji_name('\u{231b}'));
    assert("⏳"@[0] == '\u{23f3}' && "⏳"@.len() > 0);
    assert(canonical_name("hourglass_flowing_sand"@) == emoji_name('\u{23f3}'));
}

proof fn lemma_names_cue(n: Seq<char>)
    ensures
        cue_emoji(n) is Some ==> cue_emoji(n)->0.len() > 0 && canonical_name(n) == emoji_name(cue_emoji(n)->0[0]),
{
    reveal_strlit("star");
    reveal_strlit("⭐");
    reveal_strlit("star2");
    reveal_strlit("🌟");
    reveal_strlit("trophy");
    reveal_strlit("🏆");
    reveal_strlit("medal_sports");
    reveal_strlit("🏅");
    reveal_strlit("first_place_medal");
    reveal_strlit("🥇");
    reveal_strlit("second_place_medal");
    reveal_strlit("🥈");
    reveal_strlit("third_place_medal");
    reveal_strlit("🥉");
    reveal_strlit("crown");
    reveal_strlit("👑");
    reveal_strlit("gem");
    reveal_strlit("💎");
    reveal_strlit("moneybag");
    reveal_strlit("💰");
    reveal_strlit("dollar");
    reveal_strlit("💵");
    reveal_strlit("poop");
    reveal_strlit("thumbsdown");
    reveal_strlit("phone");
    reveal_strlit("hankey");
    reveal_strlit("pencil");
    reveal_strlit("-1");
    reveal_strlit("thumbsup");
    reveal_strlit("partying_face");
    reveal_strlit("memo");
    reveal_strlit("sun");
    reveal_strlit("shit");
    reveal_strlit("telephone");
    reveal_strlit("+1");
    reveal_strlit("sunny");
    reveal_strlit("red_apple");
    reveal_strlit("tada_party");
    reveal_strlit("apple");
    assert("thumbsup"@.len() == 8);
    assert("thumbsdown"@.len() == 10);
    assert("telephone"@.len() == 9);
    assert("pencil"@.len() == 6);
    assert("shit"@.len() == 4);
    assert("hankey"@.len() == 6);
    assert("tada_party"@.len() == 10);
    assert("sunny"@.len() == 5);
    assert("red_apple"@.len() == 9);
    assert("star"@.len() == 4);
    assert("star2"@.len() == 5);
    assert("trophy"@.len() == 6);
    assert("medal_sports"@.len() == 12);
    assert("first_place_medal"@.len() == 17);
    assert("second_place_medal"@.len() == 18);
    assert("third_place_medal"@.len() == 17);
    assert("crown"@.len() == 5);
    assert("gem"@.len() == 3);
    assert("moneybag"@.len() == 8);
    assert("dollar"@.len() == 6);
    assert("star"@[1] != "shit"@[1]);
    assert("star2"@[1] != "sunny"@[1]);
    assert("trophy"@[0] != "pencil"@[0]);
    assert("trophy"@[0] != "hankey"@[0]);
    assert("crown"@[0] != "sunny"@[0]);
    assert("moneybag"@[0] != "thumbsup"@[0]);
    assert("dollar"@[0] != "pencil"@[0]);
    assert("dollar"@[0] != "hankey"@[0]);
    assert("⭐"@[0] == '\u{2b50}' && "⭐"@.len() > 0);
    assert(canonical_name("star"@) == emoji_name('\u{2b50}'));
    assert("🌟"@[0] == '\u{1f31f}' && "🌟"@.len() > 0);
    assert(canonical_name("star2"@) == emoji_name('\u{1f31f}'));
    assert("🏆"@[0] == '\u{1f3c6}' && "🏆"@.len() > 0);
    assert(canonical_name("trophy"@) == emoji_name('\u{1f3c6}'));
    assert("🏅"@[0] == '\u{1f3c5}' && "🏅"@.len() > 0);
    assert(canonical_name("medal_sports"@) == emoji_name('\u{1f3c5}'));
    assert("🥇"@[0] == '\u{1f947}' && "🥇"@.len() > 0);
    assert(canonical_name("first_place_medal"@) == emoji_name('\u{1f947}'));
    assert("🥈"@[0] == '\u{1f948}' && "🥈"@.len() > 0);
    assert(canonical_name("second_place_medal"@) == emoji_name('\u{1f948}'));
    assert("🥉"@[0] == '\u{1f949}' && "🥉"@.len() > 0);
    assert(canonical_name("third_place_medal"@) == emoji_name('\u{1f949}'));
    assert("👑"@[0] == '\u{1f451}' && "👑"@.len() > 0);
    assert(canonical_name("crown"@) == emoji_name('\u{1f451}'));
    assert("💎"@[0] == '\u{1f48e}' && "💎"@.len() > 0);
    assert(canonical_name("gem"@) == emoji_name('\u{1f48e}'));
    assert("💰"@[0] == '\u{1f4b0}' && "💰"@.len() > 0);
    assert(canonical_name("moneybag"@) == emoji_name('\u{1f4b0}'));
    assert("💵"@[0] == '\u{1f4b5}' && "💵"@.len() > 0);
    assert(canonical_name("dollar"@) == emoji_name('\u{1f4b5}'));
}

proof fn lemma_names_arrow(n: Seq<char>)
    ensures
        arrow_emoji(n) is Some ==> arrow_emoji(n)->0.len() > 0 && canonical_name(n) == emoji_name(arrow_emoji(n)->0[0]),
{
    reveal_strlit("arrow_up");
    reveal_strlit("⬆️");
    reveal_strlit("arrow_down");
    reveal_strlit("⬇️");
    reveal_strlit("arrow_left");
    reveal_strlit("⬅️");
    reveal_strlit("arrow_right");
    reveal_strlit("➡️");
    reveal_strlit("arrow_upper_right");
    reveal_strlit("↗️");
    reveal_strlit("arrow_lower_right");
    reveal_strlit("↘️");
    reveal_strlit("arrow_upper_left");
    reveal_strlit("↖️");
    reveal_strlit("arrow_lower_left");
    reveal_strlit("↙️");
    reveal_strlit("arrows_clockwise");
    reveal_strlit("🔃");
    reveal_strlit("arrows_counterclockwise");
    reveal_strlit("🔄");
    reveal_strlit("leftwards_arrow_with_hook");
    reveal_strlit("↩️");
    reveal_strlit("arrow_right_hook");
    reveal_strlit("↪️");
    reveal_strlit("point_up");
    reveal_strlit("☝️");
    reveal_strlit("point_down");
    reveal_strlit("👇");
    reveal_strlit("point_left");
    reveal_strlit("👈");
    reveal_strlit("point_right");
    reveal_strlit("👉");
    reveal_strlit("poop");
    reveal_strlit("thumbsdown");
    reveal_strlit("phone");
    reveal_strlit("hankey");
    reveal_strlit("pencil");
    reveal_strlit("-1");
    reveal_strlit("thumbsup");
    reveal_strlit("partying_face");
    reveal_strlit("memo");
    reveal_strlit("sun");
    reveal_strlit("shit");
    reveal_strlit("telephone");
    reveal_strlit("+1");
    reveal_strlit("sunny");
    reveal_strlit("red_apple");
    reveal_strlit("tada_party");
    reveal_strlit("apple");
    assert("thumbsup"@.len() == 8);
    assert("thumbsdown"@.len() == 10);
    assert("telephone"@.len() == 9);
    assert("pencil"@.len() == 6);
    assert("shit"@.len() == 4);
    assert("hankey"@.len() == 6);
    assert("tada_party"@.len() == 10);
    assert("sunny"@.len() == 5);
    assert("red_apple"@.len() == 9);
    assert("arrow_up"@.len() == 8);
    assert("arrow_down"@.len() == 10);
    assert("arrow_left"@.len() == 10);
    assert("arrow_right"@.len() == 11);
    assert("arrow_upper_right"@.len() == 17);
    assert("arrow_lower_right"@.len() == 17);
    assert("arrow_upper_left"@.len() == 16);
    assert("arrow_lower_left"@.len() == 16);
    assert("arrows_clockwise"@.len() == 16);
    assert("arrows_counterclockwise"@.len() == 23);
    assert("leftwards_arrow_with_hook"@.len() == 25);
    assert("arrow_right_hook"@.len() == 16);
    assert("point_up"@.len() == 8);
    assert("point_down"@.len() == 10);
    assert("point_left"@.len() == 10);
    assert("point_right"@.len() == 11);
    assert("arrow_up"@[0] != "thumbsup"@[0]);
    assert("arrow_down"@[0] != "thumbsdown"@[0]);
    assert("arrow_down"@[0] != "tada_party"@[0]);
    assert("arrow_left"@[0] != "thumbsdown"@[0]);
    assert("arrow_left"@[0] != "tada_party"@[0]);
    assert("point_up"@[0] != "thumbsup"@[0]);
    assert("point_down"@[0] != "thumbsdown"@[0]);
    assert("point_down"@[0] != "tada_party"@[0]);
    assert("point_left"@[0] != "thumbsdown"@[0]);
    assert("point_left"@[0] != "tada_party"@[0]);
    assert("⬆️"@[0] == '\u{2b06}' && "⬆️"@.len() > 0);
    assert(canonical_name("arrow_up"@) == emoji_name('\u{2b06}'));
    assert("⬇️"@[0] == '\u{2b07}' && "⬇️"@.len() > 0);
    assert(canonical_name("arrow_down"@) == emoji_name('\u{2b07}'));
    assert("⬅️"@[0] == '\u{2b05}' && "⬅️"@.len() > 0);
    assert(canonical_name("arrow_left"@) == emoji_name('\u{2b05}'));
    assert("➡️"@[0] == '\u{27a1}' && "➡️"@.len() > 0);
    assert(canonical_name("arrow_right"@) == emoji_name('\u{27a1}'));
    assert("↗️"@[0] == '\u{2197}' && "↗️"@.len() > 0);
    assert(canonical_name("arrow_upper_right"@) == emoji_name('\u{2197}'));
    assert("↘️"@[0] == '\u{2198}' && "↘️"@.len() > 0);
    assert(canonical_name("arrow_lower_right"@) == emoji_name('\u{2198}'));
    assert("↖️"@[0] == '\u{2196}' && "↖️"@.len() > 0);
    assert(canonical_name("arrow_upper_left"@) == emoji_name('\u{2196}'));
    assert("↙️"@[0] == '\u{2199}' && "↙️"@.len() > 0);
    assert(canonical_name("arrow_lower_left"@) == emoji_name('\u{2199}'));
    assert("🔃"@[0] == '\u{1f503}' && "🔃"@.len() > 0);
    assert(canonical_name("arrows_clockwise"@) == emoji_name('\u{1f503}'));
    assert("🔄"@[0] == '\u{1f504}' && "🔄"@.len() > 0);
    assert(canonical_name("arrows_counterclockwise"@) == emoji_name('\u{1f504}'));
    assert("↩️"@[0] == '\u{21a9}' && "↩️"@.len() > 0);
    assert(canonical_name("leftwards_arrow_with_hook"@) == emoji_name('\u{21a9}'));
    assert("↪️"@[0] == '\u{21aa}' && "↪️"@.len() > 0);
    assert(canonical_name("arrow_right_hook"@) == emoji_name('\u{21aa}'));
    assert("☝️"@[0] == '\u{261d}' && "☝️"@.len() > 0);
    assert(canonical_name("point_up"@) == emoji_name('\u{261d}'));
    assert("👇"@[0] == '\u{1f447}' && "👇"@.len() > 0);
    assert(canonical_name("point_down"@) == emoji_name('\u{1f447}'));
    assert("👈"@[0] == '\u{1f448}' && "👈"@.len() > 0);
    assert(canonical_name("point_left"@) == emoji_name('\u{1f448}'));
    assert("👉"@[0] == '\u{1f449}' && "👉"@.len() > 0);
    assert(canonical_name("point_right"@) == emoji_name('\u{1f449}'));
}

proof fn lemma_names_misc(n: Seq<char>)
    ensures
        misc_emoji(n) is Some ==> misc_emoji(n)->0.len() > 0 && canonical_name(n) == emoji_name(misc_emoji(n)->0[0]),
{
    reveal_strlit("coffee");
    reveal_strlit("☕");
    reveal_strlit("beer");
    reveal_strlit("🍺");
    reveal_strlit("pizza");
    reveal_strlit("🍕");
    reveal_strlit("poop");
    reveal_strlit("shit");
    reveal_strlit("hankey");
    reveal_strlit("💩");
    reveal_strlit("tada_party");
    reveal_strlit("🥳");
    reveal_strlit("balloon");
    reveal_strlit("🎈");
    reveal_strlit("gift");
    reveal_strlit("🎁");
    reveal_strlit("art");
    reveal_strlit("🎨");
    reveal_strlit("rainbow");
    reveal_strlit("🌈");
    reveal_strlit("sun");
    reveal_strlit("sunny");
    reveal_strlit("☀️");
    reveal_strlit("cloud");
    reveal_strlit("☁️");
    reveal_strlit("snowflake");
    reveal_strlit("❄️");
    reveal_strlit("umbrella");
    reveal_strlit("☂️");
    reveal_strlit("earth_americas");
    reveal_strlit("🌎");
    reveal_strlit("earth_africa");
    reveal_strlit("🌍");
    reveal_strlit("earth_asia");
    reveal_strlit("🌏");
    reveal_strlit("poop");
    reveal_strlit("thumbsdown");
    reveal_strlit("phone");
    reveal_strlit("hankey");
    reveal_strlit("pencil");
    reveal_strlit("-1");
    reveal_strlit("thumbsup");
    reveal_strlit("partying_face");
    reveal_strlit("memo");
    reveal_strlit("sun");
    reveal_strlit("shit");
    reveal_strlit("telephone");
    reveal_strlit("+1");
    reveal_strlit("sunny");
    reveal_strlit("red_apple");
    reveal_strlit("tada_party");
    reveal_strlit("apple");
    assert("thumbsup"@.len() == 8);
    assert("thumbsdown"@.len() == 10);
    assert("telephone"@.len() == 9);
    assert("pencil"@.len() == 6);
    assert("shit"@.len() == 4);
    assert("hankey"@.len() == 6);
    assert("tada_party"@.len() == 10);
    assert("sunny"@.len() == 5);
    assert("red_apple"@.len() == 9);
    assert("coffee"@.len() == 6);
    assert("beer"@.len() == 4);
    assert("pizza"@.len() == 5);
    assert("poop"@.len() == 4);
    assert("balloon"@.len() == 7);
    assert("gift"@.len() == 4);
    assert("art"@.len() == 3);
    assert("rainbow"@.len() == 7);
    assert("sun"@.len() == 3);
    assert("cloud"@.len() == 5);
    assert("snowflake"@.len() == 9);
    assert("umbrella"@.len() == 8);
    assert("earth_americas"@.len() == 14);
    assert("earth_africa"@.len() == 12);
    assert("earth_asia"@.len() == 10);
    assert("coffee"@[0] != "pencil"@[0]);
    assert("coffee"@[0] != "hankey"@[0]);
    assert("beer"@[0] != "shit"@[0]);
    assert("pizza"@[0] != "sunny"@[0]);
    assert("poop"@[0] != "shit"@[0]);
    assert("hankey"@[0] != "pencil"@[0]);
    assert("tada_party"@[1] != "thumbsdown"@[1]);
    assert("gift"@[0] != "shit"@[0]);
    assert("cloud"@[0] != "sunny"@[0]);
    assert("snowflake"@[0] != "telephone"@[0]);
    assert("snowflake"@[0] != "red_apple"@[0]);
    assert("umbrella"@[0] != "thumbsup"@[0]);
    assert("earth_asia"@[0] != "thumbsdown"@[0]);
    assert("earth_asia"@[0] != "tada_party"@[0]);
    assert("☕"@[0] == '\u{2615}' && "☕"@.len() > 0);
    assert(canonical_name("coffee"@) == emoji_name('\u{2615}'));
    assert("🍺"@[0] == '\u{1f37a}' && "🍺"@.len() > 0);
    assert(canonical_name("beer"@) == emoji_name('\u{1f37a}'));
    assert("🍕"@[0] == '\u{1f355}' && "🍕"@.len() > 0);
    assert(canonical_name("pizza"@) == emoji_name('\u{1f355}'));
    assert("💩"@[0] == '\u{1f4a9}' && "💩"@.len() > 0);
    assert(canonical_name("poop"@) == emoji_name('\u{1f4a9}'));
    assert(canonical_name("shit"@) == emoji_name('\u{1f4a9}'));
    assert(canonical_name("hankey"@) == emoji_name('\u{1f4a9}'));
    assert("🥳"@[0] == '\u{1f973}' && "🥳"@.len() > 0);
    assert(canonical_name("tada_party"@) == emoji_name('\u{1f973}'));
    assert("🎈"@[0] == '\u{1f388}' && "🎈"@.len() > 0);
    assert(canonical_name("balloon"@) == emoji_name('\u{1f388}'));
    assert("🎁"@[0] == '\u{1f381}' && "🎁"@.len() > 0);
    assert(canonical_name("gift"@) == emoji_name('\u{1f381}'));
    assert("🎨"@[0] == '\u{1f3a8}' && "🎨"@.len() > 0);
    assert(canonical_name("art"@) == emoji_name('\u{1f3a8}'));
    assert("🌈"@[0] == '\u{1f308}' && "🌈"@.len() > 0);
    assert(canonical_name("rainbow"@) == emoji_name('\u{1f308}'));
    assert("☀️"@[0] == '\u{2600}' && "☀️"@.len() > 0);
    assert(canonical_name("sun"@) == emoji_name('\u{2600}'));
    assert(canonical_name("sunny"@) == emoji_name('\u{2600}'));
    assert("☁️"@[0] == '\u{2601}' && "☁️"@.len() > 0);
    assert(canonical_name("cloud"@) == emoji_name('\u{2601}'));
    assert("❄️"@[0] == '\u{2744}' && "❄️"@.len() > 0);
    assert(canonical_name("snowflake"@) == emoji_name('\u{2744}'));
    assert("☂️"@[0] == '\u{2602}' && "☂️"@.len() > 0);
    assert(canonical_name("umbrella"@) == emoji_name('\u{2602}'));
    assert("🌎"@[0] == '\u{1f30e}' && "🌎"@.len() > 0);
    assert(canonical_name("earth_americas"@) == emoji_name('\u{1f30e}'));
    assert("🌍"@[0] == '\u{1f30d}' && "🌍"@.len() > 0);
    assert(canonical_name("earth_africa"@) == emoji_name('\u{1f30d}'));
    assert("🌏"@[0] == '\u{1f30f}' && "🌏"@.len() > 0);
    assert(canonical_name("earth_asia"@) == emoji_name('\u{1f30f}'));
}

proof fn lemma_names_animal(n: Seq<char>)
    ensures
        animal_emoji(n) is Some ==> animal_emoji(n)->0.len() > 0 && canonical_name(n) == emoji_name(animal_emoji(n)->0[0]),
{
    reveal_strlit("dog");
    reveal_strlit("🐶");
    reveal_strlit("cat");
    reveal_strlit("🐱");
    reveal_strlit("fox_face");
    reveal_strlit("🦊");
    reveal_strlit("lion");
    reveal_strlit("🦁");
    reveal_strlit("monkey");
    reveal_strlit("🐒");
    reveal_strlit("see_no_evil");
    reveal_strlit("🙈");
    reveal_strlit("hear_no_evil");
    reveal_strlit("🙉");
    reveal_strlit("speak_no_evil");
    reveal_strlit("🙊");
    reveal_strlit("panda_face");
    reveal_strlit("🐼");
    reveal_strlit("penguin");
    reveal_strlit("🐧");
    reveal_strlit("owl");
    reveal_strlit("🦉");
    reveal_strlit("snail");
    reveal_strlit("🐌");
    reveal_strlit("ant");
    reveal_strlit("🐜");
    reveal_strlit("honeybee");
    reveal_strlit("🐝");
    reveal_strlit("butterfly");
    reveal_strlit("🦋");
    reveal_strlit("octopus");
    reveal_strlit("🐙");
    reveal_strlit("poop");
    reveal_strlit("thumbsdown");
    reveal_strlit("phone");
    reveal_strlit("hankey");
    reveal_strlit("pencil");
    reveal_strlit("-1");
    reveal_strlit("thumbsup");
    reveal_strlit("partying_face");
    reveal_strlit("memo");
    reveal_strlit("sun");
    reveal_strlit("shit");
    reveal_strlit("telephone");
    reveal_strlit("+1");
    reveal_strlit("sunny");
    reveal_strlit("red_apple");
    reveal_strlit("tada_party");
    reveal_strlit("apple");
    assert("thumbsup"@.len() == 8);
    assert("thumbsdown"@.len() == 10);
    assert("telephone"@.len() == 9);
    assert("pencil"@.len() == 6);
    assert("shit"@.len() == 4);
    assert("hankey"@.len() == 6);
    assert("tada_party"@.len() == 10);
    assert("sunny"@.len() == 5);
    assert("red_apple"@.len() == 9);
    assert("dog"@.len() == 3);
    assert("cat"@.len() == 3);
    assert("fox_face"@.len() == 8);
    assert("lion"@.len() == 4);
    assert("monkey"@.len() == 6);
    assert("see_no_evil"@.len() == 11);
    assert("hear_no_evil"@.len() == 12);
    assert("speak_no_evil"@.len() == 13);
    assert("panda_face"@.len() == 10);
    assert("penguin"@.len() == 7);
    assert("owl"@.len() == 3);
    assert("snail"@.len() == 5);
    assert("ant"@.len() == 3);
    assert("honeybee"@.len() == 8);
    assert("butterfly"@.len() == 9);
    assert("octopus"@.len() == 7);
    assert("fox_face"@[0] != "thumbsup"@[0]);
    assert("lion"@[0] != "shit"@[0]);
    assert("monkey"@[0] != "pencil"@[0]);
    assert("monkey"@[0] != "hankey"@[0]);
    assert("panda_face"@[0] != "thumbsdown"@[0]);
    assert("panda_face"@[0] != "tada_party"@[0]);
    assert("snail"@[1] != "sunny"@[1]);
    assert("honeybee"@[0] != "thumbsup"@[0]);
    assert("butterfly"@[0] != "telephone"@[0]);
    assert("butterfly"@[0] != "red_apple"@[0]);
    assert("🐶"@[0] == '\u{1f436}' && "🐶"@.len() > 0);
    assert(canonical_name("dog"@) == emoji_name('\u{1f436}'));
    assert("🐱"@[0] == '\u{1f431}' && "🐱"@.len() > 0);
    assert(canonical_name("cat"@) == emoji_name('\u{1f431}'));
    assert("🦊"@[0] == '\u{1f98a}' && "🦊"@.len() > 0);
    assert(canonical_name("fox_face"@) == emoji_name('\u{1f98a}'));
    assert("🦁"@[0] == '\u{1f981}' && "🦁"@.len() > 0);
    assert(canonical_name("lion"@) == emoji_name('\u{1f981}'));
    assert("🐒"@[0] == '\u{1f412}' && "🐒"@.len() > 0);
    assert(canonical_name("monkey"@) == emoji_name('\u{1f412}'));
    assert("🙈"@[0] == '\u{1f648}' && "🙈"@.len() > 0);
    assert(canonical_name("see_no_evil"@) == emoji_name('\u{1f648}'));
    assert("🙉"@[0] == '\u{1f649}' && "🙉"@.len() > 0);
    assert(canonical_name("hear_no_evil"@) == emoji_name('\u{1f649}'));
    assert("🙊"@[0] == '\u{1f64a}' && "🙊"@.len() > 0);
    assert(canonical_name("speak_no_evil"@) == emoji_name('\u{1f64a}'));
    assert("🐼"@[0] == '\u{1f43c}' && "🐼"@.len() > 0);
    assert(canonical_name("panda_face"@) == emoji_name('\u{1f43c}'));
    assert("🐧"@[0] == '\u{1f427}' && "🐧"@.len() > 0);
    assert(canonical_name("penguin"@) == emoji_name('\u{1f427}'));
    assert("🦉"@[0] == '\u{1f989}' && "🦉"@.len() > 0);
    assert(canonical_name("owl"@) == emoji_name('\u{1f989}'));
    assert("🐌"@[0] == '\u{1f40c}' && "🐌"@.len() > 0);
    assert(canonical_name("snail"@) == emoji_name('\u{1f40c}'));
    assert("🐜"@[0] == '\u{1f41c}' && "🐜"@.len() > 0);
    assert(canonical_name("ant"@) == emoji_name('\u{1f41c}'));
    assert("🐝"@[0] == '\u{1f41d}' && "🐝"@.len() > 0);
    assert(canonical_name("honeybee"@) == emoji_name('\u{1f41d}'));
    assert("🦋"@[0] == '\u{1f98b}' && "🦋"@.len() > 0);
    assert(canonical_name("butterfly"@) == emoji_name('\u{1f98b}'));
    assert("🐙"@[0] == '\u{1f419}' && "🐙"@.len() > 0);
    assert(canonical_name("octopus"@) == emoji_name('\u{1f419}'));
}

proof fn lemma_names_nature(n: Seq<char>)
    ensures
        nature_emoji(n) is Some ==> nature_emoji(n)->0.len() > 0 && canonical_name(n) == emoji_name(nature_emoji(n)->0[0]),
{
    reveal_strlit("seedling");
    reveal_strlit("🌱");
    reveal_strlit("evergreen_tree");
    reveal_strlit("🌲");
    reveal_strlit("deciduous_tree");
    reveal_strlit("🌳");
    reveal_strlit("palm_tree");
    reveal_strlit("🌴");
    reveal_strlit("cactus");
    reveal_strlit("🌵");
    reveal_strlit("herb");
    reveal_strlit("🌿");
    reveal_strlit("leaves");
    reveal_strlit("🍃");
    reveal_strlit("rose");
    reveal_strlit("🌹");
    reveal_strlit("cherry_blossom");
    reveal_strlit("🌸");
    reveal_strlit("sunflower");
    reveal_strlit("🌻");
    reveal_strlit("poop");
    reveal_strlit("thumbsdown");
    reveal_strlit("phone");
    reveal_strlit("hankey");
    reveal_strlit("pencil");
    reveal_strlit("-1");
    reveal_strlit("thumbsup");
    reveal_strlit("partying_face");
    reveal_strlit("memo");
    reveal_strlit("sun");
    reveal_strlit("shit");
    reveal_strlit("telephone");
    reveal_strlit("+1");
    reveal_strlit("sunny");
    reveal_strlit("red_apple");
    reveal_strlit("tada_party");
    reveal_strlit("apple");
    assert("thumbsup"@.len() == 8);
    assert("thumbsdown"@.len() == 10);
    assert("telephone"@.len() == 9);
    assert("pencil"@.len() == 6);
    assert("shit"@.len() == 4);
    assert("hankey"@.len() == 6);
    assert("tada_party"@.len() == 10);
    assert("sunny"@.len() == 5);
    assert("red_apple"@.len() == 9);
    assert("seedling"@.len() == 8);
    assert("evergreen_tree"@.len() == 14);
    assert("deciduous_tree"@.len() == 14);
    assert("palm_tree"@.len() == 9);
    assert("cactus"@.len() == 6);
    assert("herb"@.len() == 4);
    assert("leaves"@.len() == 6);
    assert("rose"@.len() == 4);
    assert("cherry_blossom"@.len() == 14);
    assert("sunflower"@.len() == 9);
    assert("seedling"@[0] != "thumbsup"@[0]);
    assert("palm_tree"@[0] != "telephone"@[0]);
    assert("palm_tree"@[0] != "red_apple"@[0]);
    assert("cactus"@[0] != "pencil"@[0]);
    assert("cactus"@[0] != "hankey"@[0]);
    assert("herb"@[0] != "shit"@[0]);
    assert("leaves"@[0] != "pencil"@[0]);
    assert("leaves"@[0] != "hankey"@[0]);
    assert("rose"@[0] != "shit"@[0]);
    assert("sunflower"@[0] != "telephone"@[0]);
    assert("sunflower"@[0] != "red_apple"@[0]);
    assert("🌱"@[0] == '\u{1f331}' && "🌱"@.len() > 0);
    assert(canonical_name("seedling"@) == emoji_name('\u{1f331}'));
    assert("🌲"@[0] == '\u{1f332}' && "🌲"@.len() > 0);
    assert(canonical_name("evergreen_tree"@) == emoji_name('\u{1f332}'));
    assert("🌳"@[0] == '\u{1f333}' && "🌳"@.len() > 0);
    assert(canonical_name("deciduous_tree"@) == emoji_name('\u{1f333}'));
    assert("🌴"@[0] == '\u{1f334}' && "🌴"@.len() > 0);
    assert(canonical_name("palm_tree"@) == emoji_name('\u{1f334}'));
    assert("🌵"@[0] == '\u{1f335}' && "🌵"@.len() > 0);
    assert(canonical_name("cactus"@) == emoji_name('\u{1f335}'));
    assert("🌿"@[0] == '\u{1f33f}' && "🌿"@.len() > 0);
    assert(canonical_name("herb"@) == emoji_name('\u{1f33f}'));
    assert("🍃"@[0] == '\u{1f343}' && "🍃"@.len() > 0);
    assert(canonical_name("leaves"@) == emoji_name('\u{1f343}'));
    assert("🌹"@[0] == '\u{1f339}' && "🌹"@.len() > 0);
    assert(canonical_name("rose"@) == emoji_name('\u{1f339}'));
    assert("🌸"@[0] == '\u{1f338}' && "🌸"@.len() > 0);
    assert(canonical_name("cherry_blossom"@) == emoji_name('\u{1f338}'));
    assert("🌻"@[0] == '\u{1f33b}' && "🌻"@.len() > 0);
    assert(canonical_name("sunflower"@) == emoji_name('\u{1f33b}'));
}

proof fn lemma_names_food(n: Seq<char>)
    ensures
        food_emoji(n) is Some ==> food_emoji(n)->0.len() > 0 && canonical_name(n) == emoji_name(food_emoji(n)->0[0]),
{
    reveal_strlit("apple");
    reveal_strlit("red_apple");
    reveal_strlit("🍎");
    reveal_strlit("banana");
    reveal_strlit("🍌");
    reveal_strlit("cake");
    reveal_strlit("🍰");
    reveal_strlit("cookie");
    reveal_strlit("🍪");
    reveal_strlit("doughnut");
    reveal_strlit("🍩");
    reveal_strlit("icecream");
    reveal_strlit("🍨");
    reveal_strlit("chocolate_bar");
    reveal_strlit("🍫");
    reveal_strlit("poop");
    reveal_strlit("thumbsdown");
    reveal_strlit("phone");
    reveal_strlit("hankey");
    reveal_strlit("pencil");
    reveal_strlit("-1");
    reveal_strlit("thumbsup");
    reveal_strlit("partying_face");
    reveal_strlit("memo");
    reveal_strlit("sun");
    reveal_strlit("shit");
    reveal_strlit("telephone");
    reveal_strlit("+1");
    reveal_strlit("sunny");
    reveal_strlit("red_apple");
    reveal_strlit("tada_party");
    reveal_strlit("apple");
    assert("thumbsup"@.len() == 8);
    assert("thumbsdown"@.len() == 10);
    assert("telephone"@.len() == 9);
    assert("pencil"@.len() == 6);
    assert("shit"@.len() == 4);
    assert("hankey"@.len() == 6);
    assert("tada_party"@.len() == 10);
    assert("sunny"@.len() == 5);
    assert("red_apple"@.len() == 9);
    assert("apple"@.len() == 5);
    assert("banana"@.len() == 6);
    assert("cake"@.len() == 4);
    assert("cookie"@.len() == 6);
    assert("doughnut"@.len() == 8);
    assert("icecream"@.len() == 8);
    assert("chocolate_bar"@.len() == 13);
    assert("apple"@[0] != "sunny"@[0]);
    assert("red_apple"@[0] != "telephone"@[0]);
    assert("banana"@[0] != "pencil"@[0]);
    assert("banana"@[0] != "hankey"@[0]);
    assert("cake"@[0] != "shit"@[0]);
    assert("cookie"@[0] != "pencil"@[0]);
    assert("cookie"@[0] != "hankey"@[0]);
    assert("doughnut"@[0] != "thumbsup"@[0]);
    assert("icecream"@[0] != "thumbsup"@[0]);
    assert("🍎"@[0] == '\u{1f34e}' && "🍎"@.len() > 0);
    assert(canonical_name("apple"@) == emoji_name('\u{1f34e}'));
    assert(canonical_name("red_apple"@) == emoji_name('\u{1f34e}'));
    assert("🍌"@[0] == '\u{1f34c}' && "🍌"@.len() > 0);
    assert(canonical_name("banana"@) == emoji_name('\u{1f34c}'));
    assert("🍰"@[0] == '\u{1f370}' && "🍰"@.len() > 0);
    assert(canonical_name("cake"@) == emoji_name('\u{1f370}'));
    assert("🍪"@[0] == '\u{1f36a}' && "🍪"@.len() > 0);
    assert(canonical_name("cookie"@) == emoji_name('\u{1f36a}'));
    assert("🍩"@[0] == '\u{1f369}' && "🍩"@.len() > 0);
    assert(canonical_name("doughnut"@) == emoji_name('\u{1f369}'));
    assert("🍨"@[0] == '\u{1f368}' && "🍨"@.len() > 0);
    assert(canonical_name("icecream"@) == emoji_name('\u{1f368}'));
    assert("🍫"@[0] == '\u{1f36b}' && "🍫"@.len() > 0);
    assert(canonical_name("chocolate_bar"@) == emoji_name('\u{1f36b}'));
}

/// The shortcode table is one-to-one up to aliases: every emoji it gives
/// is told apart by its first character, and it is the emoji of the name
/// the shortcode stands for; so two shortcodes give the same emoji only
/// when they stand for the same name.
pub proof fn lemma_emoji_names(a: Seq<char>, b: Seq<char>)
    ensures
        emoji_of(a) is Some ==> emoji_of(a)->0.len() > 0 && canonical_name(a) == emoji_name(emoji_of(a)->0[0]),
        emoji_of(a) is Some && emoji_of(a) == emoji_of(b) ==> canonical_name(a) == canonical_name(b),
{
    lemma_names_reaction(a);
    lemma_names_reaction(b);
    lemma_names_status(a);
    lemma_names_status(b);
    lemma_names_face(a);
    lemma_names_face(b);
    lemma_names_tech(a);
    lemma_names_tech(b);
    lemma_names_cue(a);
    lemma_names_cue(b);
    lemma_names_arrow(a);
    lemma_names_arrow(b);
    lemma_names_misc(a);
    lemma_names_misc(b);
    lemma_names_animal(a);
    lemma_names_animal(b);
    lemma_names_nature(a);
    lemma_names_nature(b);
    lemma_names_food(a);
    lemma_names_food(b);
}

} // verus!
