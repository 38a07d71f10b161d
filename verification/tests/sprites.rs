use rusty_ai::components::{Direction, Rect, Sprite};
use rusty_ai::sprite::{
    character_animation, character_animation_frames, direction_spritesheet_row, enemy_animation,
    ENEMY_FRAME_HEIGHT, ENEMY_FRAME_WIDTH, ENEMY_SPRITESHEET, FRAMES_PER_DIRECTION,
    HERO_FRAME_HEIGHT, HERO_FRAME_WIDTH,
};

#[test]
fn each_direction_has_its_row() {
    assert_eq!(direction_spritesheet_row(Direction::Up), 3);
    assert_eq!(direction_spritesheet_row(Direction::Down), 0);
    assert_eq!(direction_spritesheet_row(Direction::Left), 1);
    assert_eq!(direction_spritesheet_row(Direction::Right), 2);
}

#[test]
fn frames_lie_side_by_side_in_the_row_of_their_direction() {
    let top_left = Rect { x: 4, y: -10, width: 26, height: 36 };
    let frames = character_animation_frames(7, top_left, Direction::Left);
    assert_eq!(
        frames,
        vec![
            Sprite { spritesheet: 7, region: Rect { x: 4, y: 26, width: 26, height: 36 } },
            Sprite { spritesheet: 7, region: Rect { x: 30, y: 26, width: 26, height: 36 } },
            Sprite { spritesheet: 7, region: Rect { x: 56, y: 26, width: 26, height: 36 } },
        ]
    );
    let up = character_animation_frames(7, top_left, Direction::Up);
    assert_eq!(up[0].region, Rect { x: 4, y: 98, width: 26, height: 36 });
    let down = character_animation_frames(7, top_left, Direction::Down);
    assert_eq!(down[2].region, Rect { x: 56, y: -10, width: 26, height: 36 });
}

#[test]
fn frames_reach_the_largest_coordinates() {
    let top_left = Rect { x: i32::MAX - 2, y: i32::MAX - 3, width: 1, height: 1 };
    let frames = character_animation_frames(0, top_left, Direction::Up);
    assert_eq!(frames[2].region.x, i32::MAX);
    assert_eq!(frames[2].region.y, i32::MAX);
    let empty = Rect { x: i32::MIN, y: i32::MIN, width: 0, height: 0 };
    let frames = character_animation_frames(0, empty, Direction::Right);
    assert_eq!(frames.len(), FRAMES_PER_DIRECTION);
    assert_eq!(frames[1].region, empty);
}

#[test]
fn the_enemy_animation() {
    let animation = enemy_animation();
    assert_eq!(animation.current_frame, 0);
    assert_eq!(ENEMY_SPRITESHEET, 1);
    assert_eq!((ENEMY_FRAME_WIDTH, ENEMY_FRAME_HEIGHT), (32, 36));
    assert_eq!((HERO_FRAME_WIDTH, HERO_FRAME_HEIGHT), (26, 36));
    for (frames, y) in [
        (&animation.down_frames, 0),
        (&animation.left_frames, 36),
        (&animation.right_frames, 72),
        (&animation.up_frames, 108),
    ] {
        assert_eq!(frames.len(), 3);
        for (i, sprite) in frames.iter().enumerate() {
            assert_eq!(sprite.spritesheet, 1);
            assert_eq!(
                sprite.region,
                Rect { x: 32 * i as i32, y, width: 32, height: 36 }
            );
        }
    }
}

#[test]
fn a_character_animation_starts_at_rest() {
    let animation = character_animation(2, Rect { x: 0, y: 0, width: 10, height: 20 });
    assert_eq!(animation.current_frame, 0);
    assert_eq!(animation.up_frames[1].region, Rect { x: 10, y: 60, width: 10, height: 20 });
    assert_eq!(animation.right_frames[0].spritesheet, 2);
}
