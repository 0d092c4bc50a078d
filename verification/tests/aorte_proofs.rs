//! Fuzzed shapes that the checker accepts: none of them panics on the inputs that its preconditions
//! admit.

struct Rng(u64);
impl Rng {
    fn new(seed: u64) -> Self {

        Rng(seed | 1)
    }
    fn next_u64(&mut self) -> u64 {
        let mut x = self.0;
        x ^= x >> 12;
        x ^= x << 25;
        x ^= x >> 27;
        self.0 = x;
        x.wrapping_mul(0x2545_F491_4F6C_DD1D)
    }
    fn next_u32(&mut self) -> u32 {
        self.next_u64() as u32
    }

    fn below(&mut self, n: usize) -> usize {
        if n == 0 {
            0
        } else {
            (self.next_u64() % n as u64) as usize
        }
    }

    fn bytes(&mut self, max_len: usize) -> Vec<u8> {
        let len = self.below(max_len + 1);
        (0..len).map(|_| self.next_u64() as u8).collect()
    }
}

const ITERS: usize = 200_000;

fn crc32_ieee(data: &[u8]) -> u32 {
    let mut crc: u32 = 0xFFFF_FFFF;
    let mut i = 0usize;
    while i < data.len() {
        crc ^= u32::from(data[i]);
        let mut bit = 0;
        while bit < 8 {

            let mask = (crc & 1).wrapping_neg();
            crc = (crc >> 1) ^ (0xEDB8_8320 & mask);
            bit += 1;
        }
        i += 1;
    }
    !crc
}

#[test]
fn crc32_known_answer_and_never_panics() {

    assert_eq!(
        crc32_ieee(b"123456789"),
        0xCBF4_3926,
        "CRC-32 must match the canonical check value",
    );

    let mut rng = Rng::new(0xC0FF_EE00_1234_5678);
    for _ in 0..ITERS {
        let data = rng.bytes(64);
        let a = crc32_ieee(&data);
        let b = crc32_ieee(&data);
        assert_eq!(a, b, "CRC must be a pure function (got {a:#x} then {b:#x})");
    }
}

fn binary_search(arr: &[u32], target: u32) -> Option<usize> {
    let mut lo = 0usize;
    let mut hi = arr.len();
    while lo < hi {
        let mid = lo + (hi - lo) / 2;
        let v = arr[mid];
        if v == target {
            return Some(mid);
        } else if v < target {
            lo = mid + 1;
        } else {
            hi = mid;
        }
    }
    None
}

#[test]
fn binary_search_matches_linear_and_never_panics() {
    let mut rng = Rng::new(0x5EED_1234_ABCD_0001);
    for _ in 0..ITERS / 4 {

        let len = rng.below(33);
        let mut arr: Vec<u32> = (0..len).map(|_| rng.next_u32() % 256).collect();
        arr.sort_unstable();
        let target = rng.next_u32() % 256;

        let found = binary_search(&arr, target);

        match found {
            Some(idx) => assert_eq!(arr[idx], target, "Some(idx) must point at target"),
            None => assert!(
                !arr.contains(&target),
                "None must mean target absent (arr={arr:?}, target={target})",
            ),
        }
    }
}

fn ring_index(head: usize, offset: usize, mask: usize) -> usize {
    head.wrapping_add(offset) & mask
}

#[test]
fn ring_index_always_in_capacity_and_never_panics() {
    let mut rng = Rng::new(0x21A6_B0FF_0000_0001);
    for _ in 0..ITERS {

        let pow = rng.below(16);
        let cap = 1usize << pow;
        let mask = cap - 1;
        let head = rng.next_u64() as usize;
        let offset = rng.next_u64() as usize;
        let idx = ring_index(head, offset, mask);
        assert!(idx < cap, "ring index {idx} must be < cap {cap}");
    }
}

fn insertion_sort(a: &mut [u32]) {
    let mut i = 1;
    while i < a.len() {
        let mut j = i;
        while j > 0 && a[j - 1] > a[j] {
            a.swap(j - 1, j);
            j -= 1;
        }
        i += 1;
    }
}

#[test]
fn insertion_sort_correct_and_never_panics() {
    let mut rng = Rng::new(0x1235_0820_0000_0001);

    for _ in 0..ITERS / 8 {
        let len = rng.below(33);
        let orig: Vec<u32> = (0..len).map(|_| rng.next_u32() % 1000).collect();
        let mut mine = orig.clone();
        insertion_sort(&mut mine);

        let mut reference = orig.clone();
        reference.sort_unstable();
        assert_eq!(mine, reference, "insertion_sort must match std sort");
    }
}

fn crc16_ccitt(data: &[u8]) -> u16 {
    let mut crc: u16 = 0xFFFF;
    let mut i = 0usize;
    while i < data.len() {
        crc ^= (data[i] as u16) << 8;
        let mut bit = 0;
        while bit < 8 {
            crc = if crc & 0x8000 != 0 { (crc << 1) ^ 0x1021 } else { crc << 1 };
            bit += 1;
        }
        i += 1;
    }
    crc
}

#[test]
fn crc16_ccitt_known_answer_and_never_panics() {

    assert_eq!(crc16_ccitt(b"123456789"), 0x29B1, "CRC-16/CCITT-FALSE check value");
    let mut rng = Rng::new(0xCC17_0000_0000_0001);
    for _ in 0..ITERS {
        let data = rng.bytes(64);
        let a = crc16_ccitt(&data);
        assert_eq!(a, crc16_ccitt(&data), "CRC-16 must be a pure function");
    }
}

fn pid_step(setpoint: i32, measured: i32, integral: &mut i32, kp: i32, ki: i32) -> i32 {
    let error = setpoint.wrapping_sub(measured);
    *integral = integral.saturating_add(error);
    let p = (kp as i64).wrapping_mul(error as i64) >> 16;
    let i_term = (ki as i64).wrapping_mul(*integral as i64) >> 16;
    p.wrapping_add(i_term).clamp(i32::MIN as i64, i32::MAX as i64) as i32
}

#[test]
fn pid_step_never_panics() {
    let mut rng = Rng::new(0x91D0_0000_0000_0001);

    let mut zero_integ = 0i32;
    assert_eq!(
        pid_step(rng.next_u32() as i32, rng.next_u32() as i32, &mut zero_integ, 0, 0),
        0,
        "zero-gain PID output must be 0",
    );

    let mut integral = 0i32;
    for _ in 0..ITERS {
        let out = pid_step(
            rng.next_u32() as i32,
            rng.next_u32() as i32,
            &mut integral,
            rng.next_u32() as i32,
            rng.next_u32() as i32,
        );

        let _ = out;
    }
}

fn median3(a: u32, b: u32, c: u32) -> u32 {
    a.min(b).max(a.max(b).min(c))
}

#[test]
fn median3_correct_and_never_panics() {
    let mut rng = Rng::new(0x3ED1_0000_0000_0001);
    for _ in 0..ITERS {
        let (a, b, c) = (rng.next_u32() % 1000, rng.next_u32() % 1000, rng.next_u32() % 1000);
        let m = median3(a, b, c);
        let mut sorted = [a, b, c];
        sorted.sort_unstable();
        assert_eq!(m, sorted[1], "median3({a},{b},{c}) must be the middle value");
    }
}

fn at(s: &[u8], i: usize) -> u8 {
    s[i]
}

#[test]
fn pb054_at_is_safe_under_its_precondition() {
    let mut rng = Rng::new(0x0B0A_1DEC_0054_0001);
    let mut nonempty_seen = 0u64;
    for _ in 0..ITERS {
        let s = rng.bytes(64);
        if s.is_empty() {
            continue;
        }
        nonempty_seen += 1;

        let i = rng.below(s.len());

        assert_eq!(at(&s, i), s[i]);
    }
    assert!(nonempty_seen > 1000, "fuzz should exercise the in-bounds domain");
}

fn add_one(x: u32) -> u32 {
    x + 1
}

#[test]
fn pb049_add_one_no_overflow_under_precondition() {
    let mut rng = Rng::new(0x0ADD_0001_0049_0001);
    for _ in 0..ITERS {

        let x = rng.next_u32() % 100;
        let y = add_one(x);

        assert_eq!(y, x + 1);
        assert!(y <= 100);
    }
}

fn scale_q(sample: u32, gain: u32, divisor: u32) -> u32 {
    (sample * gain) / divisor
}

#[test]
fn pb049_scale_q_safe_under_precondition() {
    let mut rng = Rng::new(0x5CA1_E000_0049_0001);
    for _ in 0..ITERS {

        let sample = rng.next_u32() % 65536;
        let gain = rng.next_u32() % 65536;
        let divisor = 1 + (rng.next_u32() % 4096);
        let out = scale_q(sample, gain, divisor);

        let oracle = ((u64::from(sample) * u64::from(gain)) / u64::from(divisor)) as u32;
        assert_eq!(out, oracle, "scale_q({sample},{gain},{divisor}) must match the wide oracle");
    }
}
