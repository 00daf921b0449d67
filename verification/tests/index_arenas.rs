use language::index::{IdRange, Idx, IndexPool, IndexVec, RawRange};
use language::ExprId;
use std::ops::Range;

fn e(i: usize) -> ExprId {
    ExprId::from_usize(i)
}

#[test]
fn index_vec_push_then_get() {
    let mut v: IndexVec<ExprId, &str> = IndexVec::new();
    assert!(v.is_empty());
    assert_eq!(v.next_idx(), e(0));
    let a = v.push("a");
    let b = v.push("b");
    assert_eq!(a.index(), 0);
    assert_eq!(b.index(), 1);
    assert_eq!(v.len(), 2);
    assert!(!v.is_empty());
    assert_eq!(v.get(b), Some(&"b"));
    assert_eq!(v.get(e(2)), None);
    assert_eq!(v.next_idx(), e(2));
    assert_eq!(v[a], "a");
    v[a] = "c";
    assert_eq!(v.iter(), vec![&"c", &"b"]);
    assert_eq!(v.iter_enumerated(), vec![(e(0), &"c"), (e(1), &"b")]);
    assert_eq!(&v[Range { start: e(1), end: e(2) }], &["b"]);
}

#[test]
fn index_vec_default_is_empty() {
    let v: IndexVec<ExprId, u8> = IndexVec::default();
    assert_eq!(v.len(), 0);
}

#[test]
fn id_range_empty_has_no_entries() {
    let r: IdRange<ExprId> = IdRange::empty();
    assert_eq!(r.len(), 0);
    assert!(r.is_empty());
}

#[test]
fn pool_alloc_range_then_range() {
    let mut pool: IndexPool<ExprId, i32> = IndexPool::new();
    let x = pool.allocate(10);
    let y = pool.allocate(20);
    assert_eq!(pool.len(), 2);
    assert_eq!(*pool.get(y), 20);
    assert_eq!(pool[y], 20);
    *pool.get_mut(x) = 11;
    assert_eq!(*pool.get(x), 11);
    pool[y] += 1;
    assert_eq!(pool[y], 21);
    pool[y] -= 1;
    assert_eq!(pool.next_idx(), e(2));
    assert_eq!(pool.iter_enumerated(), vec![(x, &11), (y, &20)]);
    let first = pool.alloc_range(&[y, x, y]);
    let second = pool.alloc_range(&[x]);
    assert_eq!(first.len(), 3);
    assert!(!second.is_empty());
    assert_eq!(pool.range(first), &[y, x, y]);
    let copied = first.clone();
    assert_eq!(copied, first);
    assert_ne!(copied, second);
    assert_eq!(pool.range(second), &[x]);
    assert_eq!(pool.range(IdRange::empty()), &[] as &[ExprId]);
}

#[test]
fn pool_alloc_raw_range_then_raw_range() {
    let mut pool: IndexPool<ExprId, char> = IndexPool::default();
    pool.allocate('a');
    let r = pool.alloc_raw_range(vec!['b', 'c', 'd']);
    assert_eq!(pool.len(), 4);
    assert_eq!(pool.raw_range(r), &['b', 'c', 'd']);
    let as_range: Range<ExprId> = Range::from(r);
    assert_eq!(as_range, Range { start: e(1), end: e(4) });
    assert_eq!(RawRange::from(as_range), r);
    let mut v: IndexVec<ExprId, u8> = IndexVec::new();
    for b in 0..5u8 {
        v.push(b);
    }
    assert_eq!(&v[r], &[1, 2, 3]);
    let empty = pool.alloc_raw_range(Vec::new());
    assert_eq!(pool.raw_range(empty), &[] as &[char]);
}
