//! The animation frames of the characters.

use vstd::prelude::*;
use crate::components::{Direction, MovementAnimation, Rect, Sprite};

verus! {

/// The spritesheet that enemies are drawn from.
pub const ENEMY_SPRITESHEET: usize = 1;

/// Width of one frame of the hero's spritesheet.
pub const HERO_FRAME_WIDTH: u32 = 26;

/// Height of one frame of the hero's spritesheet.
pub const HERO_FRAME_HEIGHT: u32 = 36;

/// Width of one frame of the enemies' spritesheet.
pub const ENEMY_FRAME_WIDTH: u32 = 32;

/// Height of one frame of the enemies' spritesheet.
pub const ENEMY_FRAME_HEIGHT: u32 = 36;

/// The number of frames in the animation of one direction.
pub const FRAMES_PER_DIRECTION: usize = 3;

/// The row of the spritesheet that holds the frames of `direction`.
pub open spec fn spritesheet_row(direction: Direction) -> int {
    match direction {
        Direction::Up => 3,
        Direction::Down => 0,
        Direction::Left => 1,
        Direction::Right => 2,
    }
}

/// Frame `i` of the animation of `direction`: the frames of one direction
/// lie side by side in that direction's row, which starts below
/// `top_left_frame`.
pub open spec fn frame(
    spritesheet: usize,
    top_left_frame: Rect,
    direction: Direction,
    i: int,
) -> Sprite {
    Sprite {
        spritesheet,
        region: Rect {
            x: (top_left_frame.x + top_left_frame.width * i) as i32,
            y: (top_left_frame.y + top_left_frame.height * spritesheet_row(direction)) as i32,
            width: top_left_frame.width,
            height: top_left_frame.height,
        },
    }
}

/// The frames of the animation of `direction`, in order.
pub open spec fn frames(
    spritesheet: usize,
    top_left_frame: Rect,
    direction: Direction,
) -> Seq<Sprite> {
    Seq::new(
        FRAMES_PER_DIRECTION as nat,
        |i: int| frame(spritesheet, top_left_frame, direction, i),
    )
}

/// Whether every frame of a spritesheet that starts at `top_left_frame` can
/// be addressed with `i32` coordinates.
pub open spec fn addressable(top_left_frame: Rect) -> bool {
    &&& top_left_frame.x + top_left_frame.width * (FRAMES_PER_DIRECTION - 1) <= i32::MAX
    &&& top_left_frame.y + top_left_frame.height * 3 <= i32::MAX
}

/// Whether `animation` is the rest animation of a character drawn from
/// `spritesheet`.
pub open spec fn animates(
    animation: MovementAnimation,
    spritesheet: usize,
    top_left_frame: Rect,
) -> bool {
    &&& animation.current_frame == 0
    &&& animation.up_frames@ == frames(spritesheet, top_left_frame, Direction::Up)
    &&& animation.down_frames@ == frames(spritesheet, top_left_frame, Direction::Down)
    &&& animation.left_frames@ == frames(spritesheet, top_left_frame, Direction::Left)
    &&& animation.right_frames@ == frames(spritesheet, top_left_frame, Direction::Right)
}

/// The top-left frame of the enemies' spritesheet.
pub open spec fn enemy_frame() -> Rect {
    Rect { x: 0, y: 0, width: ENEMY_FRAME_WIDTH, height: ENEMY_FRAME_HEIGHT }
}

/// The top-left frame of the hero's spritesheet.
pub open spec fn hero_frame() -> Rect {
    Rect { x: 0, y: 0, width: HERO_FRAME_WIDTH, height: HERO_FRAME_HEIGHT }
}

/// Returns the row of the spritesheet corresponding to the given direction.
pub fn direction_spritesheet_row(direction: Direction) -> (row: i32)
    ensures
        row == spritesheet_row(direction),
{
    match direction {
        Direction::Up => 3,
        Direction::Down => 0,
        Direction::Left => 1,
        Direction::Right => 2,
    }
}

/// Creates the animation frames of `direction` for the standard character
/// spritesheet.
pub fn character_animation_frames(
    spritesheet: usize,
    top_left_frame: Rect,
    direction: Direction,
) -> (sprites: Vec<Sprite>)
    requires
        addressable(top_left_frame),
    ensures
        sprites@ == frames(spritesheet, top_left_frame, direction),
{
    let frame_width: i64 = top_left_frame.width as i64;
    let frame_height: i64 = top_left_frame.height as i64;
    let row: i64 = direction_spritesheet_row(direction) as i64;
    let y_offset: i64 = top_left_frame.y as i64 + frame_height * row;
    let mut sprites: Vec<Sprite> = Vec::new();
    let mut i: usize = 0;
    while i < FRAMES_PER_DIRECTION
        invariant
            i <= FRAMES_PER_DIRECTION,
            addressable(top_left_frame),
            frame_width == top_left_frame.width,
            frame_height == top_left_frame.height,
            y_offset == top_left_frame.y + top_left_frame.height * spritesheet_row(direction),
            sprites@.len() == i,
            forall|k: int|
                0 <= k < i ==> sprites@[k] == frame(spritesheet, top_left_frame, direction, k),
        decreases FRAMES_PER_DIRECTION - i,
    {
        assert(0 <= frame_width * i <= frame_width * (FRAMES_PER_DIRECTION - 1)) by (
            nonlinear_arith)
            requires
                0 <= frame_width,
                0 <= i <= FRAMES_PER_DIRECTION - 1,
        ;
        let x: i64 = top_left_frame.x as i64 + frame_width * (i as i64);
        sprites.push(
            Sprite {
                spritesheet,
                region: Rect {
                    x: x as i32,
                    y: y_offset as i32,
                    width: top_left_frame.width,
                    height: top_left_frame.height,
                },
            },
        );
        i = i + 1;
    }
    sprites
}

/// The rest animation of a character whose spritesheet starts at
/// `top_left_frame`.
pub fn character_animation(spritesheet: usize, top_left_frame: Rect) -> (animation:
    MovementAnimation)
    requires
        addressable(top_left_frame),
    ensures
        animates(animation, spritesheet, top_left_frame),
{
    MovementAnimation {
        current_frame: 0,
        up_frames: character_animation_frames(spritesheet, top_left_frame, Direction::Up),
        down_frames: character_animation_frames(spritesheet, top_left_frame, Direction::Down),
        left_frames: character_animation_frames(spritesheet, top_left_frame, Direction::Left),
        right_frames: character_animation_frames(spritesheet, top_left_frame, Direction::Right),
    }
}

/// The rest animation of an enemy.
pub fn enemy_animation() -> (animation: MovementAnimation)
    ensures
        animates(animation, ENEMY_SPRITESHEET, enemy_frame()),
{
    let enemy_top_left_frame = Rect {
        x: 0,
        y: 0,
        width: ENEMY_FRAME_WIDTH,
        height: ENEMY_FRAME_HEIGHT,
    };
    character_animation(ENEMY_SPRITESHEET, enemy_top_left_frame)
}

} // verus!
