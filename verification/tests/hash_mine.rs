use std::array;
use tmmt::hash_mine::HashMine;
use tmmt::mine::Mine as MineTrait;
use tmmt::mine::MineError;

// max size of values in the test file
type Block = u128;
type Mine<const V: usize> = HashMine<V>;

#[test]
fn hash_mine_smoke() {
    // 4 initial values
    let initial_blocks = [4, 4, 2, 2];
    let mut mine = Mine::<4>::new(initial_blocks);
    assert_eq!(*mine.validation_blocks(), [4, 4, 2, 2]);

    // inserting 5th
    assert_eq!(mine.try_extend_one(8), Ok(()));
    assert_eq!(
        *mine.validation_blocks(),
        [4, 2, 2, 8],
        "Unexpected changed validation blocks {:#?}",
        mine.validation_blocks()
    );

    // inserting 6th
    assert_eq!(mine.try_extend_one(4), Ok(()));
    assert_eq!(
        *mine.validation_blocks(),
        [2, 2, 8, 4],
        "Unexpected changed validation blocks {:#?}",
        mine.validation_blocks()
    );

    // failing on 7th
    assert_eq!(
        mine.try_extend_one(2),
        Err(MineError::InvalidBlock(2, 7)),
        "Block values present in mine are not necessarily valid sums"
    );
    assert_eq!(
        *mine.validation_blocks(),
        [2, 2, 8, 4],
        "Expected validation blocks to remain unchanged {:#?}",
        mine.validation_blocks()
    );

    // failing on 7th
    assert_eq!(
        mine.try_extend_one(0),
        Err(MineError::InvalidBlock(0, 7)),
        "Sanity checking uint edge cases"
    );
    assert_eq!(
        *mine.validation_blocks(),
        [2, 2, 8, 4],
        "Expected validation blocks to remain unchanged {:#?}",
        mine.validation_blocks()
    );

    // Mine with many same values
    let initial_blocks = [2, 2, 2, 2];
    let mut mine = Mine::<4>::new(initial_blocks);
    assert_eq!(*mine.validation_blocks(), [2, 2, 2, 2]);

    assert_eq!(
        mine.try_extend_one(6),
        Err(MineError::InvalidBlock(6, 5)),
        "Only sums of existing pairs are valid"
    );

    assert_eq!(
        mine.try_extend_one(8),
        Err(MineError::InvalidBlock(8, 5)),
        "Only sums of existing pairs are valid"
    );

    assert_eq!(mine.try_extend_one(4), Ok(()));
    assert_eq!(
        *mine.validation_blocks(),
        [2, 2, 2, 4],
        "Unexpected changed validation blocks {:#?}",
        mine.validation_blocks()
    );
}

#[test]
fn hash_mine_smoke2() {
    let initial_blocks: [Block; 100] = array::from_fn(|i| i as Block + 1);
    let mut mine = Mine::<100>::new(initial_blocks);
    let test_blocks: [Block; 99] = array::from_fn(|i| 2 * (i as Block + 1) + 1);

    let result = mine.try_extend(&test_blocks);
    assert_eq!(result, Ok(()))
}

#[test]
fn hash_mine_example_with_complex_construction() {
    let initial_blocks = [35, 20, 15, 25, 47];
    let test_blocks = [
        40, 62, 55, 65, 95, 102, 117, 150, 182, 127, 219, 299, 277, 309, 576,
    ];

    let mut mine = Mine::<5>::new(initial_blocks);
    let result = mine.try_extend(&test_blocks);

    assert_eq!(result, Err(MineError::InvalidBlock(127, 15)));
}

#[test]
fn hash_mine_example_with_simple_construction() {
    let blocks = [
        35, 20, 15, 25, 47, 40, 62, 55, 65, 95, 102, 117, 150, 182, 127, 219, 299, 277, 309,
        576,
    ];

    let result = Mine::<5>::try_create_and_extend(&blocks);

    assert_eq!(result, Err(MineError::InvalidBlock(127, 15)));
}
