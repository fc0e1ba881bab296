use philo::errors::CompileError;
use philo::regalloc::RegisterAllocator;
use philo::regalloc::Width;
use philo::regalloc::REG_COUNT;

#[test]
fn deterministic_scan_order() {
    let mut pool = RegisterAllocator::new();
    assert_eq!(pool.acquire(Width::W64).unwrap(), "rax");
    assert_eq!(pool.acquire(Width::W64).unwrap(), "rbx");
    assert_eq!(pool.acquire(Width::W64).unwrap(), "rcx");
}

#[test]
fn acquire_all_then_exhausted() {
    let mut pool = RegisterAllocator::new();
    for _ in 0..REG_COUNT {
        assert!(pool.acquire(Width::W64).is_ok());
    }
    assert_eq!(pool.acquire(Width::W64), Err(CompileError::RegistersExhausted));
}

#[test]
fn release_one_and_reacquire() {
    let mut pool = RegisterAllocator::new();
    for _ in 0..REG_COUNT {
        pool.acquire(Width::W64).unwrap();
    }
    assert_eq!(pool.acquire(Width::W8), Err(CompileError::RegistersExhausted));
    pool.release("rcx");
    assert_eq!(pool.acquire(Width::W8).unwrap(), "cl");
}

#[test]
fn width_classes_alias_one_pool() {
    let mut pool = RegisterAllocator::new();
    assert_eq!(pool.acquire(Width::W64).unwrap(), "rax");
    assert_eq!(pool.acquire(Width::W8).unwrap(), "bl");
    assert_eq!(pool.acquire(Width::W32).unwrap(), "ecx");
}

#[test]
fn release_is_idempotent_and_ignores_unknown_names() {
    let mut pool = RegisterAllocator::new();
    pool.release("rax");
    pool.release("nonsense");
    assert_eq!(pool.acquire(Width::W64).unwrap(), "rax");
    pool.release("rax");
    pool.release("rax");
    assert_eq!(pool.acquire(Width::W64).unwrap(), "rax");
}

#[test]
fn release_by_alias_of_other_width() {
    let mut pool = RegisterAllocator::new();
    assert_eq!(pool.acquire(Width::W64).unwrap(), "rax");
    pool.release("eax");
    assert_eq!(pool.acquire(Width::W64).unwrap(), "rax");
}

#[test]
fn probe_does_not_mark_used() {
    let pool = RegisterAllocator::new();
    assert_eq!(pool.unused_register(Width::W8).unwrap(), "al");
    assert_eq!(pool.unused_register(Width::W8).unwrap(), "al");
}
