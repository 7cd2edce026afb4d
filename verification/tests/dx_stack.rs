use ft8lib::dx_matched::PhysicalAdmissionGate;
use ft8lib::dx_stack::{SlotStack, StackKey, MAX_STACK_DEPTH};

fn llr(bit: f32) -> [f32; 4] {
    [bit; 4]
}

fn key() -> StackKey {
    StackKey { parity: 0, freq_bin: 1000 }
}

fn sum_first(stack: &SlotStack<[f32; 4]>) -> f32 {
    stack.slot_fields().iter().map(|f| f[0]).sum()
}

#[test]
fn physical_admission_is_the_accumulation_gate() {
    let mut stack = SlotStack::new(key(), 1_000_000, 200, llr(1.0), 140300);

    let gate = PhysicalAdmissionGate { min_nsync: 4, min_syncavemax_milli: 0, ..PhysicalAdmissionGate::new() };
    assert!(stack.admit_with_hypotheses(1_001_000, 250, 4, 100, llr(1.0), 140330, gate, None));
    assert_eq!(stack.depth(), 2);

    assert!(!stack.admit_with_hypotheses(1_010_000, 250, 10, 10_000, llr(1.0), 140400, PhysicalAdmissionGate::new(), None));
    assert_eq!(stack.depth(), 2);
    assert_eq!(stack.last_seen_nutc(), 140330);
}

#[test]
fn sustained_confident_hypothesis_flip_resets_stack() {
    let gate = PhysicalAdmissionGate { min_nsync: 1, ..PhysicalAdmissionGate::new() };
    let field_a = llr(1.0);
    let field_b = llr(-1.0);
    let (hyp_a, hyp_b) = (3usize, 7usize);
    let mut stack = SlotStack::new(key(), 1_000_000, 200, field_a, 140300);

    assert!(stack.admit_with_hypotheses(1_000_000, 200, 8, 2_000, field_a, 140330, gate, Some(hyp_a)));
    assert_eq!(stack.depth(), 2);

    assert!(stack.admit_with_hypotheses(1_000_000, 200, 8, 2_000, field_b, 140400, gate, Some(hyp_b)));
    assert_eq!(stack.depth(), 3);

    assert!(stack.admit_with_hypotheses(1_000_000, 200, 8, 2_000, field_b, 140430, gate, Some(hyp_b)));
    assert_eq!(stack.depth(), 1);
    assert_eq!(stack.slot_fields()[0], field_b);
}

#[test]
fn agreeing_slot_interrupts_a_flip() {
    let gate = PhysicalAdmissionGate::new();
    let mut stack = SlotStack::new(key(), 1_000_000, 200, llr(1.0), 140300);
    assert!(stack.admit_with_hypotheses(1_000_000, 200, 8, 2_000, llr(1.0), 140330, gate, Some(0)));
    assert!(stack.admit_with_hypotheses(1_000_000, 200, 8, 2_000, llr(-1.0), 140400, gate, Some(1)));
    assert!(stack.admit_with_hypotheses(1_000_000, 200, 8, 2_000, llr(1.0), 140430, gate, Some(0)));
    assert!(stack.admit_with_hypotheses(1_000_000, 200, 8, 2_000, llr(-1.0), 140500, gate, Some(1)));
    assert_eq!(stack.depth(), 5);
}

#[test]
fn stack_depth_cap_removes_oldest_llr_from_sum() {
    let mut stack = SlotStack::new(key(), 1_000_000, 200, llr(1.0), 140300);
    for idx in 0..MAX_STACK_DEPTH {
        let next = llr(2.0 + idx as f32);
        assert!(stack.admit_with_hypotheses(
            1_000_000,
            200,
            8,
            2_000,
            next,
            140330 + idx as u32 * 30,
            PhysicalAdmissionGate::new(),
            None,
        ));
    }

    assert_eq!(stack.depth(), MAX_STACK_DEPTH as u32);
    // The original 1.0 slot was evicted, leaving values 2.0..=9.0.
    assert_eq!(sum_first(&stack), (2..=9).map(|value| value as f32).sum::<f32>());
    assert_eq!(stack.slot_fields()[0], llr(2.0));
}

#[test]
fn stack_remembers_key_and_anchor() {
    let stack = SlotStack::new(StackKey { parity: 1, freq_bin: 1500 }, 1_500_250, -300, llr(0.5), 120015);
    assert_eq!(stack.key(), StackKey { parity: 1, freq_bin: 1500 });
    assert_eq!(stack.anchor(), (1_500_250, -300));
    assert!(stack.can_admit(1_503_250, 0, 4, 0, PhysicalAdmissionGate::new()));
    assert!(!stack.can_admit(1_503_251, 0, 4, 0, PhysicalAdmissionGate::new()));
    assert!(!stack.can_admit(1_500_250, 1, 4, 0, PhysicalAdmissionGate::new()));
    assert!(!stack.can_admit(1_500_250, 0, 3, 0, PhysicalAdmissionGate::new()));
}
