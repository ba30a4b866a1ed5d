use pfsense_dashboard::boot_time::{BootTime, Uptime};
use pfsense_dashboard::counter::{CounterPair, Ratio};
use pfsense_dashboard::cpu::Cpu;
use pfsense_dashboard::decoder::{Decoder, Endianness};
use pfsense_dashboard::error::Error;
use pfsense_dashboard::memory::Memory;
use pfsense_dashboard::ssh_exec::{batched_sysctls_1, batched_sysctls_2};
use pfsense_dashboard::temperature_sysctl::TemperatureSysctl;

fn little(bytes: Vec<u8>) -> Decoder {
    Decoder::new(bytes, Endianness::Little)
}

fn ticks(values: &[u64]) -> Vec<u8> {
    values.iter().flat_map(|value| value.to_le_bytes()).collect()
}

#[test]
fn three_little_endian_integers() {
    let mut bytes = Vec::new();
    bytes.extend_from_slice(&0x0403_0201u32.to_le_bytes());
    bytes.extend_from_slice(&u32::MAX.to_le_bytes());
    bytes.extend_from_slice(&7u32.to_le_bytes());
    assert_eq!(bytes.len(), 12);
    let mut decoder = little(bytes);
    assert_eq!(decoder.read_u32(), Ok(0x0403_0201));
    assert_eq!(decoder.read_u32(), Ok(u32::MAX));
    assert_eq!(decoder.read_u32(), Ok(7));
    assert_eq!(decoder.try_read_u32(), Ok(None));
}

#[test]
fn bytes_are_put_together_in_the_given_order() {
    let bytes = vec![0x01, 0x02, 0x03, 0x04, 0x05, 0x06, 0x07, 0x08];
    assert_eq!(little(bytes.clone()).read_u32(), Ok(0x0403_0201));
    assert_eq!(Decoder::new(bytes.clone(), Endianness::Big).read_u32(), Ok(0x0102_0304));
    assert_eq!(little(bytes.clone()).read_u64(), Ok(0x0807_0605_0403_0201));
    assert_eq!(Decoder::new(bytes, Endianness::Big).read_u64(), Ok(0x0102_0304_0506_0708));
}

#[test]
fn third_integer_missing_is_a_corrupt_stream() {
    let mut memory = Memory { physical: 1 << 30, num_pages: 1000, used_pages: 0 };
    let mut bytes = Vec::new();
    bytes.extend_from_slice(&1u32.to_le_bytes());
    bytes.extend_from_slice(&2u32.to_le_bytes());
    assert_eq!(bytes.len(), 8);
    assert_eq!(memory.update(&mut little(bytes)), Err(Error::CorruptBinaryStream));
    assert_eq!(memory.used_pages, 0);
}

#[test]
fn end_inside_an_integer_is_a_corrupt_stream() {
    for len in 1..4 {
        let mut decoder = little(vec![0xff; len]);
        assert_eq!(decoder.try_read_u32(), Err(Error::CorruptBinaryStream));
        assert_eq!(decoder.read_u32(), Err(Error::CorruptBinaryStream));
    }
    for len in 1..8 {
        assert_eq!(little(vec![0xff; len]).try_read_u64(), Err(Error::CorruptBinaryStream));
    }
    let mut decoder = little(vec![1, 0, 0, 0, 2, 0, 0, 0, 3, 0]);
    assert_eq!(decoder.try_read_u32(), Ok(Some(1)));
    assert_eq!(decoder.try_read_u32(), Ok(Some(2)));
    assert_eq!(decoder.try_read_u32(), Err(Error::CorruptBinaryStream));
}

#[test]
fn end_at_a_boundary_is_a_clean_end() {
    let mut decoder = little(Vec::new());
    assert_eq!(decoder.try_read_u32(), Ok(None));
    assert_eq!(decoder.try_read_u64(), Ok(None));
    assert_eq!(decoder.read_u64_sequence(), Ok(Vec::new()));
    // Where an integer has to be there, the end is an error all the same.
    assert_eq!(decoder.read_u32(), Err(Error::CorruptBinaryStream));
    assert_eq!(decoder.read_u64(), Err(Error::CorruptBinaryStream));
}

#[test]
fn sequence_runs_to_the_end() {
    assert_eq!(little(ticks(&[1, 2, 3])).read_u64_sequence(), Ok(vec![1, 2, 3]));
    assert_eq!(
        Decoder::new(vec![0, 0, 0, 0, 0, 0, 1, 0], Endianness::Big).read_u64_sequence(),
        Ok(vec![256])
    );
    let mut cut = ticks(&[1, 2, 3]);
    cut.pop();
    assert_eq!(little(cut).read_u64_sequence(), Err(Error::CorruptBinaryStream));
}

#[test]
fn cold_pair_gives_no_rate() {
    let mut pair = CounterPair::new();
    assert_eq!(pair.delta(), None);
    pair.record(500);
    assert_eq!(pair, CounterPair { previous: 0, current: 500 });
    assert_eq!(pair.delta(), None);
    pair.record(800);
    assert_eq!(pair.delta(), Some(300));
    pair.record(100);
    assert_eq!(pair.delta(), Some(0));
}

#[test]
fn ratio_scales_without_overflow() {
    assert_eq!(Ratio { numerator: 400, denominator: 500 }.scaled(100), Some(80));
    assert_eq!(Ratio { numerator: 1, denominator: 3 }.scaled(100), Some(33));
    assert_eq!(Ratio { numerator: 1, denominator: 0 }.scaled(100), None);
    assert_eq!(Ratio { numerator: 0, denominator: 0 }.scaled(100), None);
    assert_eq!(
        Ratio { numerator: u64::MAX, denominator: 1 }.scaled(u64::MAX),
        Some(u64::MAX as u128 * u64::MAX as u128)
    );
}

#[test]
fn cpu_usage_of_the_example() {
    let mut cpu = Cpu::new();
    assert_eq!(cpu.usage_percent(), None);
    cpu.update(&mut little(ticks(&[100, 50, 30, 20, 800]))).expect("first sample");
    assert_eq!(cpu.total, CounterPair { previous: 0, current: 1000 });
    assert_eq!(cpu.idle, CounterPair { previous: 0, current: 800 });
    assert_eq!(cpu.usage_percent(), None);
    cpu.update(&mut little(ticks(&[300, 150, 100, 50, 900]))).expect("second sample");
    assert_eq!(cpu.total, CounterPair { previous: 1000, current: 1500 });
    assert_eq!(cpu.idle, CounterPair { previous: 800, current: 900 });
    let usage = cpu.usage_percent().expect("two samples");
    assert_eq!(usage, Ratio { numerator: 400, denominator: 500 });
    assert_eq!(usage.scaled(100), Some(80));
    assert_eq!(usage.numerator as f32 * 100. / usage.denominator as f32, 80.0);
}

#[test]
fn cpu_sample_without_idle_counter() {
    let mut cpu = Cpu::new();
    cpu.update(&mut little(ticks(&[1, 2, 3, 4]))).expect("sample");
    assert_eq!(cpu.total.current, 10);
    assert_eq!(cpu.idle.current, 0);
    cpu.update(&mut little(Vec::new())).expect("empty sample");
    assert_eq!(cpu.total, CounterPair { previous: 10, current: 0 });
    assert_eq!(cpu.usage_percent(), Some(Ratio { numerator: 0, denominator: 0 }));
}

#[test]
fn cpu_keeps_its_state_on_an_error() {
    let mut cpu = Cpu::new();
    cpu.update(&mut little(ticks(&[1, 2, 3, 4, 5]))).expect("sample");
    let before = cpu;
    let mut cut = ticks(&[1, 2, 3, 4, 5]);
    cut.truncate(37);
    assert_eq!(cpu.update(&mut little(cut)), Err(Error::CorruptBinaryStream));
    assert_eq!(cpu, before);
    assert_eq!(cpu.update(&mut little(ticks(&[u64::MAX, 1]))), Err(Error::CounterOutOfRange));
    assert_eq!(cpu, before);
    assert_eq!(cpu.update(&mut little(ticks(&[u64::MAX, 0]))), Ok(()));
    assert_eq!(cpu.total.current, u64::MAX);
}

#[test]
fn cpu_counters_that_fall_back() {
    let cpu = Cpu {
        total: CounterPair { previous: 1000, current: 900 },
        idle: CounterPair { previous: 10, current: 20 },
    };
    assert_eq!(cpu.usage_percent(), Some(Ratio { numerator: 0, denominator: 0 }));
    let cpu = Cpu {
        total: CounterPair { previous: 1000, current: 1100 },
        idle: CounterPair { previous: 500, current: 700 },
    };
    assert_eq!(cpu.usage_percent(), Some(Ratio { numerator: 0, denominator: 100 }));
}

#[test]
fn memory_is_read_and_updated() {
    let mut bytes = Vec::new();
    bytes.extend_from_slice(&(8u64 << 30).to_le_bytes());
    bytes.extend_from_slice(&2_000_000u32.to_le_bytes());
    let mut memory = Memory::parse(&mut little(bytes)).expect("memory");
    assert_eq!(memory, Memory { physical: 8 << 30, num_pages: 2_000_000, used_pages: 0 });
    let mut bytes = Vec::new();
    bytes.extend_from_slice(&300_000u32.to_le_bytes());
    bytes.extend_from_slice(&200_000u32.to_le_bytes());
    bytes.extend_from_slice(&1_000_000u32.to_le_bytes());
    memory.update(&mut little(bytes)).expect("update");
    assert_eq!(memory.used_pages, 500_000);
    let mut bytes = Vec::new();
    bytes.extend_from_slice(&1_000_000u32.to_le_bytes());
    bytes.extend_from_slice(&1_000_000u32.to_le_bytes());
    bytes.extend_from_slice(&1u32.to_le_bytes());
    assert_eq!(memory.update(&mut little(bytes)), Err(Error::CounterOutOfRange));
    assert_eq!(memory.used_pages, 500_000);
    assert_eq!(Memory::parse(&mut little(vec![0; 11])), Err(Error::CorruptBinaryStream));
}

#[test]
fn boot_time_and_uptime() {
    let mut bytes = Vec::new();
    bytes.extend_from_slice(&1_600_000_000u64.to_le_bytes());
    bytes.extend_from_slice(&250_000u64.to_le_bytes());
    let boot = BootTime::parse(&mut little(bytes)).expect("boot time");
    assert_eq!(boot, BootTime { micros: 1_600_000_000_250_000 });
    let now = 1_600_000_000_250_000 + (3 * 86400 + 4 * 3600 + 5 * 60 + 6) * 1_000_000 + 999_999;
    assert_eq!(boot.uptime(now), Ok(Uptime { days: 3, hours: 4, minutes: 5, seconds: 6 }));
    assert_eq!(boot.uptime(boot.micros), Ok(Uptime { days: 0, hours: 0, minutes: 0, seconds: 0 }));
    assert_eq!(boot.uptime(boot.micros - 1), Err(Error::ClockWentBack));
    let mut bytes = Vec::new();
    bytes.extend_from_slice(&u64::MAX.to_le_bytes());
    bytes.extend_from_slice(&0u64.to_le_bytes());
    assert_eq!(BootTime::parse(&mut little(bytes)), Err(Error::CounterOutOfRange));
    assert_eq!(BootTime::parse(&mut little(vec![0; 15])), Err(Error::CorruptBinaryStream));
}

#[test]
fn startup_values_are_read_in_order() {
    let mut bytes = Vec::new();
    bytes.extend_from_slice(&10u64.to_le_bytes());
    bytes.extend_from_slice(&20u64.to_le_bytes());
    bytes.extend_from_slice(&4096u64.to_le_bytes());
    bytes.extend_from_slice(&77u32.to_le_bytes());
    assert_eq!(
        batched_sysctls_1::run(little(bytes.clone())),
        Ok((
            BootTime { micros: 10_000_020 },
            Memory { physical: 4096, num_pages: 77, used_pages: 0 }
        ))
    );
    bytes.pop();
    assert_eq!(batched_sysctls_1::run(little(bytes)), Err(Error::CorruptBinaryStream));
    assert_eq!(
        batched_sysctls_1::command(),
        "/sbin/sysctl -b kern.boottime hw.physmem vm.stats.vm.v_page_count"
    );
}

fn sensors() -> Vec<TemperatureSysctl> {
    TemperatureSysctl::get_all(vec![
        "hw.acpi.thermal.tz0.temperature".to_string(),
        "dev.cpu.1.temperature".to_string(),
        "kern.ostype".to_string(),
        "dev.cpu.0.temperature".to_string(),
        "dev.cpu.0.temperatures".to_string(),
        "temperature".to_string(),
        "dev.cpu.0.Temperature".to_string(),
    ])
}

#[test]
fn sensors_are_picked_and_sorted() {
    let names: Vec<String> = sensors().into_iter().map(|sensor| sensor.name).collect();
    assert_eq!(
        names,
        vec![
            "dev.cpu.0.temperature",
            "dev.cpu.0.temperatures",
            "dev.cpu.1.temperature",
            "hw.acpi.thermal.tz0.temperature",
            "temperature",
        ]
    );
    assert!(sensors().iter().all(|sensor| sensor.value == 0));
    assert!(TemperatureSysctl::get_all(Vec::new()).is_empty());
}

#[test]
fn sensor_is_updated() {
    let mut sensor = TemperatureSysctl { name: "t".to_string(), value: 0 };
    assert_eq!(sensor.update(&mut little(vec![0xa4, 0x0c, 0, 0])), Ok(()));
    assert_eq!(sensor.value, 3236);
    assert_eq!(sensor.update(&mut little(vec![1, 2, 3])), Err(Error::CorruptBinaryStream));
    assert_eq!(sensor.value, 3236);
    assert_eq!(sensor.name, "t");
}

#[test]
fn batched_command_names_every_sensor() {
    let exec = batched_sysctls_2::Exec::new(&sensors()[..2].iter().map(|s| TemperatureSysctl { name: s.name.clone(), value: 0 }).collect());
    assert_eq!(
        exec.command(),
        "/sbin/sysctl -b vm.stats.vm.v_inactive_count vm.stats.vm.v_cache_count vm.stats.vm.v_free_count 'dev.cpu.0.temperature' 'dev.cpu.0.temperatures' kern.cp_time"
    );
    assert_eq!(
        batched_sysctls_2::Exec::new(&Vec::new()).command(),
        "/sbin/sysctl -b vm.stats.vm.v_inactive_count vm.stats.vm.v_cache_count vm.stats.vm.v_free_count kern.cp_time"
    );
}

fn batch(pages: [u32; 3], values: &[u32], counters: &[u64]) -> Vec<u8> {
    let mut bytes = Vec::new();
    for page in pages {
        bytes.extend_from_slice(&page.to_le_bytes());
    }
    for value in values {
        bytes.extend_from_slice(&value.to_le_bytes());
    }
    bytes.extend_from_slice(&ticks(counters));
    bytes
}

#[test]
fn batch_updates_everything_or_nothing() {
    let mut sensors = vec![
        TemperatureSysctl { name: "a".to_string(), value: 1 },
        TemperatureSysctl { name: "b".to_string(), value: 2 },
    ];
    let exec = batched_sysctls_2::Exec::new(&sensors);
    let mut cpu = Cpu::new();
    let mut memory = Memory { physical: 0, num_pages: 100, used_pages: 0 };
    let bytes = batch([10, 20, 30], &[3000, 3100], &[5, 5, 5, 5, 80]);
    assert_eq!(exec.run(&mut cpu, &mut memory, &mut sensors, little(bytes)), Ok(()));
    assert_eq!(memory.used_pages, 40);
    assert_eq!(sensors[0].value, 3000);
    assert_eq!(sensors[1].value, 3100);
    assert_eq!(cpu.total.current, 100);
    assert_eq!(cpu.idle.current, 80);

    let seen = (cpu, memory);
    for bytes in [
        batch([10, 20, 30], &[1, 2], &[5, 5, 5, 5, 80])[..51].to_vec(),
        batch([10, 20, 30], &[1], &[])[..15].to_vec(),
        batch([10, 20, 30], &[1], &[]),
        batch([10, 20, 30], &[], &[]),
        batch([10, 20, 71], &[1, 2], &[1]),
        batch([10, 20, 30], &[1, 2], &[u64::MAX, 1]),
        Vec::new(),
    ] {
        assert!(exec.run(&mut cpu, &mut memory, &mut sensors, little(bytes)).is_err());
        assert_eq!((cpu, memory), seen);
        assert_eq!(sensors[0].value, 3000);
        assert_eq!(sensors[1].value, 3100);
    }
    // No tick counters at all make an empty sample.
    let bytes = batch([1, 1, 1], &[7, 8], &[]);
    assert_eq!(exec.run(&mut cpu, &mut memory, &mut sensors, little(bytes)), Ok(()));
    assert_eq!(memory.used_pages, 97);
    assert_eq!(sensors[1].value, 8);
    assert_eq!(cpu.total, CounterPair { previous: 100, current: 0 });
}
