//! Where the piles lie on the board, in pixels.

use vstd::prelude::*;

verus! {

pub const CARD_SPACING_X: i32 = 20;
pub const CARD_SPACING_Y: i32 = 15;
pub const STACK_PADDING: i32 = 10;

pub const STOCK_POS_X: i32 = 50;
pub const STOCK_POS_Y: i32 = 50;

pub const STACK_X_OFFSET: i32 = 100;

pub const WASTE_POS_X: i32 = STOCK_POS_X + STACK_X_OFFSET;
pub const WASTE_POS_Y: i32 = STOCK_POS_Y;

pub const FOUNDATION_START_X: i32 = 500;
pub const FOUNDATION_START_Y: i32 = STOCK_POS_Y;
pub const FOUNDATION_X_OFFSET: i32 = 90;

pub const TABLEAU_START_X: i32 = STOCK_POS_X;
pub const TABLEAU_START_Y: i32 = STOCK_POS_Y + 100 + 50;
pub const TABLEAU_X_OFFSET: i32 = STACK_X_OFFSET;

pub const TABLEAU_Y_OFFSET_FACE_DOWN: i32 = 10;
pub const TABLEAU_Y_OFFSET_FACE_UP: i32 = 25;

} // verus!
