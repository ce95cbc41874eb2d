use anchor_compressed_notes::authority;
use anchor_compressed_notes::controller::{plan_append, plan_create};
use anchor_compressed_notes::{
    append_note, commit, create_note_tree, resume, AppendNote, Authority, CreateNoteTree,
    NoteError, NoteSchema, Pending, Request, Step,
};
use std::collections::HashMap;

const REGION_NOT_EMPTY: u64 = 6001;
const TREE_NOT_INITIALIZED: u64 = 6002;
const WRONG_AUTHORITY: u64 = 6003;
const TREE_FULL: u64 = 6004;
const EMITTER_DOWN: u64 = 7001;

const TREE_A: [u8; 32] = [0xa1; 32];
const TREE_B: [u8; 32] = [0xb2; 32];

const KECCAK_OF_HELLO: [u8; 32] = [
    28, 138, 255, 149, 6, 133, 194, 237, 75, 195, 23, 79, 52, 114, 40, 123, 86, 217, 81, 123,
    156, 148, 129, 39, 49, 154, 9, 167, 163, 109, 234, 200,
];

#[derive(Debug, Clone, PartialEq, Eq)]
struct Tree {
    authority: [u8; 32],
    max_depth: u32,
    max_buffer_size: u32,
    leaves: Vec<[u8; 32]>,
}

// A tree store and an emitter in memory. Each request takes effect whole or
// not at all.
#[derive(Debug, Clone, PartialEq, Eq)]
struct Outside {
    trees: HashMap<[u8; 32], Tree>,
    trail: Vec<Vec<u8>>,
    emitter_down: bool,
    requests: usize,
}

impl Outside {
    fn new() -> Outside {
        Outside { trees: HashMap::new(), trail: Vec::new(), emitter_down: false, requests: 0 }
    }

    fn serve(&mut self, request: &Request) -> Result<(), u64> {
        self.requests += 1;
        match request {
            Request::InitEmptyTree { merkle_tree, authority, max_depth, max_buffer_size } => {
                if self.trees.contains_key(merkle_tree) {
                    return Err(REGION_NOT_EMPTY);
                }
                self.trees.insert(
                    *merkle_tree,
                    Tree {
                        authority: authority.address,
                        max_depth: *max_depth,
                        max_buffer_size: *max_buffer_size,
                        leaves: Vec::new(),
                    },
                );
                Ok(())
            }
            Request::AppendLeaf { merkle_tree, authority, leaf } => {
                let tree = match self.trees.get_mut(merkle_tree) {
                    Some(tree) => tree,
                    None => return Err(TREE_NOT_INITIALIZED),
                };
                if tree.authority != authority.address {
                    return Err(WRONG_AUTHORITY);
                }
                if tree.leaves.len() as u64 >= 1u64 << tree.max_depth {
                    return Err(TREE_FULL);
                }
                tree.leaves.push(*leaf);
                Ok(())
            }
            Request::Emit { record } => {
                if self.emitter_down {
                    return Err(EMITTER_DOWN);
                }
                self.trail.push(record.clone());
                Ok(())
            }
        }
    }

    fn run(&mut self, first: Step) -> Result<(), NoteError> {
        let mut step = first;
        loop {
            match step {
                Step::Done(result) => return result,
                Step::Call(pending, request) => {
                    let reply = self.serve(&request);
                    step = resume(pending, reply);
                }
            }
        }
    }

    fn create(&mut self, tree: [u8; 32], max_depth: u32, max_buffer_size: u32) -> Result<(), NoteError> {
        let first = create_note_tree(&CreateNoteTree { merkle_tree: tree }, max_depth, max_buffer_size);
        self.run(first)
    }

    fn append(&mut self, tree: [u8; 32], text: &str) -> Result<(), NoteError> {
        let first = append_note(&AppendNote { merkle_tree: tree }, String::from(text));
        self.run(first)
    }
}

fn record_of(text: &str) -> Vec<u8> {
    NoteSchema::new(commit(text.as_bytes()), String::from(text)).encode().unwrap()
}

#[test]
fn create_note_tree_asks_the_store_to_initialise_the_tree() {
    let step = create_note_tree(&CreateNoteTree { merkle_tree: TREE_A }, 14, 64);
    let expected = Step::Call(
        Pending::Initialize,
        Request::InitEmptyTree {
            merkle_tree: TREE_A,
            authority: authority::derive(&TREE_A).unwrap(),
            max_depth: 14,
            max_buffer_size: 64,
        },
    );
    assert_eq!(step, expected);
}

#[test]
fn append_note_asks_the_store_to_append_the_hash_and_keeps_the_record() {
    let step = append_note(&AppendNote { merkle_tree: TREE_A }, String::from("hello"));
    let mut record = KECCAK_OF_HELLO.to_vec();
    record.extend_from_slice(&[5, 0, 0, 0]);
    record.extend_from_slice(b"hello");
    let expected = Step::Call(
        Pending::Append { record },
        Request::AppendLeaf {
            merkle_tree: TREE_A,
            authority: authority::derive(&TREE_A).unwrap(),
            leaf: KECCAK_OF_HELLO,
        },
    );
    assert_eq!(step, expected);
}

#[test]
fn plans_end_at_once_without_an_authority() {
    let failed = Err(NoteError::AuthorityDerivationFailed);
    assert_eq!(
        plan_create(&CreateNoteTree { merkle_tree: TREE_A }, failed, 14, 64),
        Step::Done(Err(NoteError::AuthorityDerivationFailed))
    );
    let note = NoteSchema::new(commit(b"hello"), String::from("hello"));
    assert_eq!(
        plan_append(&AppendNote { merkle_tree: TREE_A }, failed, &note),
        Step::Done(Err(NoteError::AuthorityDerivationFailed))
    );
}

#[test]
fn plans_carry_the_authority_they_are_given() {
    let given = Authority { address: [0x11; 32], bump: 250 };
    assert_eq!(
        plan_create(&CreateNoteTree { merkle_tree: TREE_B }, Ok(given), 3, 8),
        Step::Call(
            Pending::Initialize,
            Request::InitEmptyTree {
                merkle_tree: TREE_B,
                authority: given,
                max_depth: 3,
                max_buffer_size: 8
            }
        )
    );
    let note = NoteSchema::new([0x22; 32], String::from("n"));
    let mut record = vec![0x22u8; 32];
    record.extend_from_slice(&[1, 0, 0, 0, b'n']);
    assert_eq!(
        plan_append(&AppendNote { merkle_tree: TREE_B }, Ok(given), &note),
        Step::Call(
            Pending::Append { record },
            Request::AppendLeaf { merkle_tree: TREE_B, authority: given, leaf: [0x22; 32] }
        )
    );
}

#[test]
fn resume_ends_an_initialisation() {
    assert_eq!(resume(Pending::Initialize, Ok(())), Step::Done(Ok(())));
    assert_eq!(
        resume(Pending::Initialize, Err(REGION_NOT_EMPTY)),
        Step::Done(Err(NoteError::TreeInitializationFailed(REGION_NOT_EMPTY)))
    );
}

#[test]
fn resume_emits_the_record_once_the_leaf_is_in() {
    assert_eq!(
        resume(Pending::Append { record: vec![1, 2, 3] }, Ok(())),
        Step::Call(Pending::Emit, Request::Emit { record: vec![1, 2, 3] })
    );
    assert_eq!(
        resume(Pending::Append { record: vec![1, 2, 3] }, Err(TREE_FULL)),
        Step::Done(Err(NoteError::LeafAppendFailed(TREE_FULL)))
    );
}

#[test]
fn resume_ends_an_emission() {
    assert_eq!(resume(Pending::Emit, Ok(())), Step::Done(Ok(())));
    assert_eq!(
        resume(Pending::Emit, Err(EMITTER_DOWN)),
        Step::Done(Err(NoteError::EventEmissionFailed(EMITTER_DOWN)))
    );
    assert_eq!(resume(Pending::Emit, Err(0)), Step::Done(Err(NoteError::EventEmissionFailed(0))));
    assert_eq!(
        resume(Pending::Emit, Err(u64::MAX)),
        Step::Done(Err(NoteError::EventEmissionFailed(u64::MAX)))
    );
}

#[test]
fn the_first_note_of_a_new_tree_is_leaf_zero() {
    let mut outside = Outside::new();
    assert_eq!(outside.create(TREE_A, 14, 64), Ok(()));
    assert_eq!(outside.append(TREE_A, "hello"), Ok(()));

    let tree = &outside.trees[&TREE_A];
    assert_eq!(tree.max_depth, 14);
    assert_eq!(tree.max_buffer_size, 64);
    assert_eq!(tree.leaves.len(), 1);
    assert_eq!(tree.leaves[0], KECCAK_OF_HELLO);

    assert_eq!(outside.trail.len(), 1);
    let note = NoteSchema::decode(&outside.trail[0]).unwrap();
    assert_eq!(*note.leaf_node(), KECCAK_OF_HELLO);
    assert_eq!(note.message(), "hello");
}

#[test]
fn creating_a_tree_twice_fails_the_second_time() {
    let mut outside = Outside::new();
    assert_eq!(outside.create(TREE_A, 14, 64), Ok(()));
    assert_eq!(outside.append(TREE_A, "kept"), Ok(()));
    let after_first = outside.clone();

    assert_eq!(
        outside.create(TREE_A, 14, 64),
        Err(NoteError::TreeInitializationFailed(REGION_NOT_EMPTY))
    );
    assert_eq!(
        outside.create(TREE_A, 20, 256),
        Err(NoteError::TreeInitializationFailed(REGION_NOT_EMPTY))
    );
    assert_eq!(outside.trees, after_first.trees);
    assert_eq!(outside.trail, after_first.trail);
    assert_eq!(outside.create(TREE_B, 14, 64), Ok(()));
}

#[test]
fn appending_to_a_tree_that_was_not_created_fails() {
    let mut outside = Outside::new();
    assert_eq!(outside.create(TREE_B, 14, 64), Ok(()));
    let before = outside.clone();

    assert_eq!(
        outside.append(TREE_A, "hello"),
        Err(NoteError::LeafAppendFailed(TREE_NOT_INITIALIZED))
    );
    assert_eq!(outside.trees, before.trees);
    assert!(outside.trail.is_empty());
    assert_eq!(outside.requests, before.requests + 1);
}

#[test]
fn a_failing_emitter_does_not_undo_the_append() {
    let mut outside = Outside::new();
    assert_eq!(outside.create(TREE_A, 14, 64), Ok(()));
    assert_eq!(outside.append(TREE_A, "first"), Ok(()));
    outside.emitter_down = true;

    assert_eq!(
        outside.append(TREE_A, "second"),
        Err(NoteError::EventEmissionFailed(EMITTER_DOWN))
    );
    assert_eq!(outside.trees[&TREE_A].leaves, vec![commit(b"first"), commit(b"second")]);
    assert_eq!(outside.trail, vec![record_of("first")]);
}

#[test]
fn a_full_tree_refuses_the_leaf_and_nothing_is_emitted() {
    let mut outside = Outside::new();
    assert_eq!(outside.create(TREE_A, 1, 8), Ok(()));
    assert_eq!(outside.append(TREE_A, "one"), Ok(()));
    assert_eq!(outside.append(TREE_A, "two"), Ok(()));
    assert_eq!(outside.append(TREE_A, "three"), Err(NoteError::LeafAppendFailed(TREE_FULL)));
    assert_eq!(outside.trees[&TREE_A].leaves.len(), 2);
    assert_eq!(outside.trail, vec![record_of("one"), record_of("two")]);
}

#[test]
fn a_tree_under_another_authority_refuses_the_leaf() {
    let mut outside = Outside::new();
    let stranger = Authority { address: [0x55; 32], bump: 255 };
    let first = plan_create(&CreateNoteTree { merkle_tree: TREE_A }, Ok(stranger), 14, 64);
    assert_eq!(outside.run(first), Ok(()));
    assert_eq!(outside.append(TREE_A, "hello"), Err(NoteError::LeafAppendFailed(WRONG_AUTHORITY)));
    assert!(outside.trees[&TREE_A].leaves.is_empty());
    assert!(outside.trail.is_empty());
}

#[test]
fn notes_land_in_the_order_of_their_appends() {
    let mut outside = Outside::new();
    assert_eq!(outside.create(TREE_A, 14, 64), Ok(()));
    let texts = ["one", "two", "two", "", "gr\u{fc}\u{df}e"];
    for text in texts {
        assert_eq!(outside.append(TREE_A, text), Ok(()));
    }
    let leaves: Vec<[u8; 32]> = texts.iter().map(|text| commit(text.as_bytes())).collect();
    assert_eq!(outside.trees[&TREE_A].leaves, leaves);
    let read_back: Vec<String> = outside
        .trail
        .iter()
        .map(|record| String::from(NoteSchema::decode(record).unwrap().message()))
        .collect();
    assert_eq!(read_back, texts);
}

#[test]
fn appends_under_way_at_once_each_get_a_leaf_of_their_own() {
    let mut outside = Outside::new();
    assert_eq!(outside.create(TREE_A, 14, 64), Ok(()));
    assert_eq!(outside.append(TREE_A, "already there"), Ok(()));

    let calls = 40usize;
    let texts: Vec<String> = (0..calls).map(|n| format!("note {}", n)).collect();
    let mut steps: Vec<Option<Step>> = texts
        .iter()
        .map(|text| Some(append_note(&AppendNote { merkle_tree: TREE_A }, text.clone())))
        .collect();
    let mut results: Vec<Option<Result<(), NoteError>>> = vec![None; calls];
    let mut index_of: Vec<Option<usize>> = vec![None; calls];

    let mut seed: u64 = 0x9e3779b97f4a7c15;
    let mut open = calls;
    while open > 0 {
        seed = seed.wrapping_mul(6364136223846793005).wrapping_add(1442695040888963407);
        let pick = (seed >> 33) as usize % calls;
        let step = match steps[pick].take() {
            Some(step) => step,
            None => continue,
        };
        match step {
            Step::Done(result) => {
                results[pick] = Some(result);
                open -= 1;
            }
            Step::Call(pending, request) => {
                outside.emitter_down = pick % 5 == 0;
                let leaves_before = outside.trees[&TREE_A].leaves.len();
                let reply = outside.serve(&request);
                if reply.is_ok() && outside.trees[&TREE_A].leaves.len() > leaves_before {
                    index_of[pick] = Some(leaves_before);
                }
                steps[pick] = Some(resume(pending, reply));
            }
        }
    }

    let leaves = &outside.trees[&TREE_A].leaves;
    assert_eq!(leaves[0], commit(b"already there"));
    assert_eq!(leaves.len(), 1 + calls);
    let mut taken = vec![false; leaves.len()];
    taken[0] = true;
    let mut succeeded = 0;
    for n in 0..calls {
        let index = index_of[n].unwrap();
        assert!(!taken[index]);
        taken[index] = true;
        assert_eq!(leaves[index], commit(texts[n].as_bytes()));
        if n % 5 == 0 {
            assert_eq!(results[n], Some(Err(NoteError::EventEmissionFailed(EMITTER_DOWN))));
        } else {
            assert_eq!(results[n], Some(Ok(())));
            succeeded += 1;
        }
    }
    assert_eq!(outside.trail.len(), 1 + succeeded);
    assert_eq!(succeeded, calls - calls / 5);
}
