//! Riichi mahjong hand analysis: tiles, hands, melds, the shanten distance of
//! a hand and the tiles that bring it closer to a win.

pub mod riichi;
