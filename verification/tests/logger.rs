use co2_sensor::flash::{starts_sector, FlashReply, FlashRequest};
use co2_sensor::logger::{
    find_first_empty, logger_task, next_boot_count, AppendFailed, BootCounter, LogPartition,
    LoggerAction, LoggerTask, NvsReply, NvsRequest, OpenStage, Opening, PartitionNotFound, Pending,
    Walk, WriteFailed, HEADER_SIZE, MAGIC,
};
use co2_sensor::record::Record;

const KB: usize = 1024;

/// A partition of NOR flash: programming only clears bits.
fn serve(image: &mut Vec<u8>, request: &FlashRequest) -> FlashReply {
    match request {
        FlashRequest::Read { offset, len } => {
            let (from, to) = (*offset as usize, *offset as usize + *len as usize);
            if to > image.len() {
                return FlashReply::Failed;
            }
            FlashReply::Bytes(image[from..to].to_vec())
        }
        FlashRequest::Erase { offset, len } => {
            let (from, to) = (*offset as usize, *offset as usize + *len as usize);
            if to > image.len() || from % 4096 != 0 || to % 4096 != 0 {
                return FlashReply::Failed;
            }
            for byte in &mut image[from..to] {
                *byte = 0xFF;
            }
            FlashReply::Done
        }
        FlashRequest::Write { offset, bytes } => {
            let from = *offset as usize;
            if from + bytes.len() > image.len() {
                return FlashReply::Failed;
            }
            for (k, byte) in bytes.iter().enumerate() {
                image[from + k] &= *byte;
            }
            FlashReply::Done
        }
    }
}

fn open(image: &mut Vec<u8>, boot_count: u16) -> LogPartition {
    let mut opening = LogPartition::open(Some(image.len() as u32), boot_count).unwrap();
    while let Some(request) = opening.request() {
        let reply = serve(image, &request);
        opening.resume(&reply);
    }
    opening.finish().expect("the log opens")
}

fn append(log: &mut LogPartition, image: &mut Vec<u8>, uptime_s: u32, ppm: u16) {
    log.append(uptime_s, ppm);
    while let Some(request) = log.request() {
        let reply = serve(image, &request);
        assert_eq!(log.resume(&reply), Ok(()));
    }
}

fn slot(image: &[u8], at: usize) -> (u16, u32, u16) {
    let s = &image[at..at + 8];
    (
        u16::from_le_bytes([s[0], s[1]]),
        u32::from_le_bytes([s[2], s[3], s[4], s[5]]),
        u16::from_le_bytes([s[6], s[7]]),
    )
}

#[test]
fn record_is_stored_little_endian() {
    let record = Record {
        boot_count: 0x0102,
        uptime_s: 0x0304_0506,
        ppm: 0x0708,
    };
    assert_eq!(record.encode(), [0x02, 0x01, 0x06, 0x05, 0x04, 0x03, 0x08, 0x07]);
}

#[test]
fn record_within_the_sensor_range_is_never_blank() {
    let record = Record {
        boot_count: 0xFFFF,
        uptime_s: 0xFFFF_FFFF,
        ppm: 32700,
    };
    assert_ne!(record.encode(), [0xFF; 8]);
    let all_ones = Record { ppm: 0xFFFF, ..record };
    assert_eq!(all_ones.encode(), [0xFF; 8]);
}

#[test]
fn sectors_start_at_multiples_of_4096() {
    assert!(starts_sector(0));
    assert!(starts_sector(8192));
    assert!(!starts_sector(4104));
}

#[test]
fn magic_spells_c2log_and_a_version() {
    assert_eq!(&MAGIC, b"C2LOG\x01\0\0");
}

#[test]
fn missing_partition_is_reported() {
    assert_eq!(LogPartition::open(None, 1), Err(PartitionNotFound));
    let task = logger_task(None, 1);
    assert_eq!(task, LoggerTask::Disabled);
    assert!(matches!(task.action(), LoggerAction::Stop));
}

#[test]
fn fresh_partition_is_erased_and_stamped() {
    let mut image = vec![0xA5u8; 384 * KB];
    let log = open(&mut image, 7);
    assert_eq!(
        log,
        LogPartition {
            size: 384 * 1024,
            write_pos: HEADER_SIZE,
            boot_count: 7,
            pending: Pending::Idle
        }
    );
    assert_eq!(&image[..8], b"C2LOG\x01\0\0");
    assert!(image[8..].iter().all(|&b| b == 0xFF));
    assert_eq!(log.stored_records(), 0);
}

#[test]
fn opening_follows_header_erase_stamp_scan() {
    let mut opening = LogPartition::open(Some(8192), 1).unwrap();
    assert!(matches!(opening.request(), Some(FlashRequest::Read { offset: 0, len: 8 })));
    opening.resume(&FlashReply::Bytes(vec![0xFF; 8]));
    assert!(matches!(opening.request(), Some(FlashRequest::Erase { offset: 0, len: 8192 })));
    opening.resume(&FlashReply::Done);
    match opening.request() {
        Some(FlashRequest::Write { offset: 0, bytes }) => assert_eq!(bytes, MAGIC.to_vec()),
        other => panic!("unexpected request {:?}", other),
    }
    opening.resume(&FlashReply::Done);
    assert!(matches!(opening.request(), Some(FlashRequest::Read { offset: 4096, len: 256 })));
    opening.resume(&FlashReply::Bytes(vec![0xFF; 256]));
    assert_eq!(opening.stage, OpenStage::Ready { write_pos: 4096 });
    assert!(opening.request().is_none());
}

#[test]
fn opening_fails_on_any_error() {
    for errors_at in 0..4 {
        let mut image = vec![0u8; 8 * KB];
        let mut opening = LogPartition::open(Some(8192), 1).unwrap();
        let mut step = 0;
        while let Some(request) = opening.request() {
            let reply = if step == errors_at {
                FlashReply::Failed
            } else {
                serve(&mut image, &request)
            };
            opening.resume(&reply);
            step += 1;
        }
        assert_eq!(opening.stage, OpenStage::Failed);
        assert_eq!(opening.finish(), None);
    }
}

#[test]
fn chunk_search_finds_the_first_blank_record() {
    let mut chunk = vec![0u8; 256];
    assert_eq!(find_first_empty(&chunk), None);
    for byte in &mut chunk[13..24] {
        *byte = 0xFF;
    }
    assert_eq!(find_first_empty(&chunk), Some(16));
    for byte in &mut chunk[0..8] {
        *byte = 0xFF;
    }
    assert_eq!(find_first_empty(&chunk), Some(0));
    let mut last = vec![0u8; 256];
    for byte in &mut last[248..256] {
        *byte = 0xFF;
    }
    assert_eq!(find_first_empty(&last), Some(248));
}

#[test]
fn append_erases_only_when_it_enters_a_sector() {
    let mut image = vec![0u8; 8 * KB];
    let mut log = open(&mut image, 3);
    log.append(60, 400);
    assert!(matches!(log.request(), Some(FlashRequest::Erase { offset: 4096, len: 4096 })));
    assert_eq!(log.resume(&FlashReply::Done), Ok(()));
    match log.request() {
        Some(FlashRequest::Write { offset: 4096, bytes }) => {
            assert_eq!(bytes, vec![3, 0, 60, 0, 0, 0, 0x90, 0x01])
        }
        other => panic!("unexpected request {:?}", other),
    }
    assert_eq!(log.resume(&FlashReply::Done), Ok(()));
    assert_eq!(log.write_pos, 4104);
    log.append(120, 401);
    assert!(matches!(log.request(), Some(FlashRequest::Write { offset: 4104, .. })));
}

#[test]
fn failed_append_keeps_the_write_position() {
    let mut image = vec![0u8; 8 * KB];
    let mut log = open(&mut image, 3);
    log.append(60, 400);
    assert_eq!(log.resume(&FlashReply::Failed), Err(AppendFailed));
    assert_eq!(log.write_pos, 4096);
    log.append(60, 400);
    assert_eq!(log.resume(&FlashReply::Done), Ok(()));
    assert_eq!(log.resume(&FlashReply::Failed), Err(AppendFailed));
    assert_eq!(log.write_pos, 4096);
    assert!(log.request().is_none());
    append(&mut log, &mut image, 120, 500);
    assert_eq!(slot(&image, 4096), (3, 120, 500));
}

#[test]
fn restart_resumes_after_the_last_record() {
    let mut image = vec![0u8; 16 * KB];
    let mut log = open(&mut image, 1);
    for k in 0..700u32 {
        append(&mut log, &mut image, 60 * k, 400);
    }
    let mut again = open(&mut image, 2);
    assert_eq!(again.write_pos, 4096 + 700 * 8);
    assert_eq!(again.stored_records(), 700);
    append(&mut again, &mut image, 60, 450);
    assert_eq!(slot(&image, 4096 + 699 * 8), (1, 60 * 699, 400));
    assert_eq!(slot(&image, 4096 + 700 * 8), (2, 60, 450));
}

#[test]
fn wrap_around_drops_the_oldest_sector_only() {
    // Header and three sectors of 512 records.
    let mut image = vec![0u8; 16 * KB];
    let mut log = open(&mut image, 1);
    for k in 0..1536u32 {
        append(&mut log, &mut image, k, 400);
    }
    assert_eq!(log.write_pos, 16384);
    append(&mut log, &mut image, 1536, 400);
    assert_eq!(log.write_pos, 4104);
    assert_eq!(slot(&image, 4096), (1, 1536, 400));
    assert!(image[4104..8192].iter().all(|&b| b == 0xFF));
    assert_eq!(slot(&image, 8192), (1, 512, 400));
    assert_eq!(slot(&image, 16376), (1, 1535, 400));
    // Mid-sector, a restart resumes here too.
    assert_eq!(open(&mut image, 2).write_pos, 4104);
    assert_eq!(&image[..8], b"C2LOG\x01\0\0");
}

#[test]
fn restart_on_a_full_partition_wraps() {
    let mut image = vec![0u8; 8 * KB];
    let mut log = open(&mut image, 1);
    for k in 0..512u32 {
        append(&mut log, &mut image, k, 400);
    }
    assert_eq!(log.write_pos, 8192);
    assert_eq!(open(&mut image, 2).write_pos, 4096);
}

#[test]
fn restart_between_sectors_of_a_later_lap_resumes_at_the_oldest() {
    let mut image = vec![0u8; 16 * KB];
    let mut log = open(&mut image, 1);
    for k in 0..(1536 + 512u32) {
        append(&mut log, &mut image, k, 400);
    }
    assert_eq!(log.write_pos, 8192);
    let mut again = open(&mut image, 2);
    assert_eq!(again.write_pos, 8192);
    append(&mut again, &mut image, 60, 450);
    // The newest sector is still there, the oldest one made room.
    for k in 0..512u32 {
        assert_eq!(slot(&image, 4096 + 8 * k as usize), (1, 1536 + k, 400));
        assert_eq!(slot(&image, 12288 + 8 * k as usize), (1, 1024 + k, 400));
    }
    assert_eq!(slot(&image, 8192), (2, 60, 450));
    assert!(image[8200..12288].iter().all(|&b| b == 0xFF));
}

#[test]
fn restart_between_sectors_keeps_the_newest_of_the_whole_partition() {
    let mut image = vec![0xFFu8; 384 * KB];
    let mut log = open(&mut image, 1);
    for k in 0..(48640 + 512u32) {
        append(&mut log, &mut image, 60 * (k + 1), 400);
    }
    let mut again = open(&mut image, 2);
    assert_eq!(again.write_pos, 8192);
    append(&mut again, &mut image, 60, 400);
    for k in 0..512u32 {
        assert_eq!(slot(&image, 4096 + 8 * k as usize), (1, 60 * (48640 + k + 1), 400));
    }
    assert_eq!(slot(&image, 8192), (2, 60, 400));
    assert!(image[8200..12288].iter().all(|&b| b == 0xFF));
    assert_eq!(slot(&image, 12288), (1, 60 * 1025, 400));
}

#[test]
fn restart_tells_sessions_apart_by_their_boot_count() {
    let mut image = vec![0u8; 16 * KB];
    let mut log = open(&mut image, 1);
    for k in 0..1536u32 {
        append(&mut log, &mut image, 1_000_000 + k, 400);
    }
    let mut later = open(&mut image, 2);
    assert_eq!(later.write_pos, 4096);
    for k in 0..1024u32 {
        append(&mut later, &mut image, k, 400);
    }
    assert_eq!(open(&mut image, 3).write_pos, 12288);
}

#[test]
fn full_partition_is_searched_for_the_oldest_sector() {
    let mut image = vec![0u8; 16 * KB];
    let mut log = open(&mut image, 1);
    for k in 0..(1536 + 1024u32) {
        append(&mut log, &mut image, k, 400);
    }
    let mut opening = LogPartition::open(Some(16384), 2).unwrap();
    let mut requests = Vec::new();
    while let Some(request) = opening.request() {
        if let FlashRequest::Read { offset, len } = request {
            requests.push((offset, len));
        }
        let reply = serve(&mut image, &request);
        opening.resume(&reply);
    }
    assert_eq!(requests.len(), 1 + 48 + 3);
    assert_eq!(requests[0], (0, 8));
    assert_eq!(requests[48], (16128, 256));
    assert_eq!(requests[49..], [(4088, 16), (8184, 16), (12280, 16)]);
    assert_eq!(opening.stage, OpenStage::Ready { write_pos: 12288 });
}

#[test]
fn search_for_the_oldest_sector_fails_on_any_error() {
    let stage = OpenStage::Seek { offset: 4096, walk: None };
    for reply in [
        FlashReply::Failed,
        FlashReply::Done,
        FlashReply::Bytes(vec![0; 8]),
    ] {
        let mut opening = Opening { size: 16384, boot_count: 1, stage };
        opening.resume(&reply);
        assert_eq!(opening.stage, OpenStage::Failed);
    }
    let mut opening = Opening { size: 16384, boot_count: 1, stage };
    let first = Record { boot_count: 1, uptime_s: 60, ppm: 400 };
    let mut bytes = vec![0xFF; 8];
    bytes.extend_from_slice(&first.encode());
    opening.resume(&FlashReply::Bytes(bytes));
    assert_eq!(
        opening.stage,
        OpenStage::Seek {
            offset: 8192,
            walk: Some(Walk { first, before: first, turn: None })
        }
    );
}

/// A log in a partition of so many record sectors, with sessions of the given
/// boot counts and numbers of records, a minute apart from 60 s on.
fn sessions(sectors: usize, plan: &[(u16, u32)]) -> Vec<u8> {
    let mut image = vec![0u8; 4 * KB * (sectors + 1)];
    let mut log = open(&mut image, 0);
    for &(boot_count, records) in plan {
        log.boot_count = boot_count;
        for k in 0..records {
            append(&mut log, &mut image, 60 * (k + 1), 400);
        }
    }
    image
}

#[test]
fn missing_boot_counter_tells_no_order() {
    // The partition is full for the first time: the oldest record comes first.
    let mut image = sessions(2, &[(5, 512), (0, 512)]);
    assert_eq!(open(&mut image, 6).write_pos, 4096);
    let mut image = sessions(3, &[(5, 700), (0, 836)]);
    assert_eq!(open(&mut image, 6).write_pos, 4096);
    let mut image = sessions(3, &[(0, 512), (0, 512), (0, 512)]);
    assert_eq!(open(&mut image, 0).write_pos, 4096);
}

#[test]
fn boot_counter_that_starts_again_is_no_turn() {
    let mut image = sessions(3, &[(5, 700), (1, 836)]);
    assert_eq!(open(&mut image, 2).write_pos, 4096);
    let mut image = sessions(3, &[(65535, 700), (0, 100), (1, 736)]);
    assert_eq!(open(&mut image, 2).write_pos, 4096);
    let mut image = sessions(4, &[(1, 512), (2, 1024), (1, 512)]);
    assert_eq!(open(&mut image, 2).write_pos, 4096);
    let mut image = sessions(4, &[(3, 1024), (2, 512), (1, 512)]);
    assert_eq!(open(&mut image, 2).write_pos, 4096);
}

#[test]
fn short_session_without_a_boot_counter_hides_no_turn() {
    // Full laps of three sectors, and one sector more.
    let mut image = sessions(3, &[(1, 600), (0, 50), (2, 1398)]);
    assert_eq!(open(&mut image, 3).write_pos, 8192);
    let mut image = sessions(3, &[(1, 2000), (0, 48)]);
    assert_eq!(open(&mut image, 2).write_pos, 8192);
}

#[test]
fn records_are_ordered_by_boot_count_and_time() {
    let record = Record { boot_count: 2, uptime_s: 60, ppm: 400 };
    assert_eq!(Record::decode(&record.encode(), 0), record);
    let mut two = vec![0xA5; 8];
    two.extend_from_slice(&record.encode());
    assert_eq!(Record::decode(&two, 8), record);
    let later = Record { uptime_s: 120, ..record };
    let next_boot = Record { boot_count: 3, uptime_s: 0, ..record };
    assert!(record.is_older(&later) && !later.is_older(&record));
    assert!(later.is_older(&next_boot) && !next_boot.is_older(&later));
    assert!(!record.is_older(&Record { ppm: 500, ..record }));
    assert!(later.falls_to(&record) && !record.falls_to(&later));
    assert!(record.falls_to(&record));
}

#[test]
fn boot_count_zero_is_ordered_only_in_itself() {
    let unknown = Record { boot_count: 0, uptime_s: 60, ppm: 400 };
    let later = Record { uptime_s: 120, ..unknown };
    let known = Record { boot_count: 1, uptime_s: 90, ppm: 400 };
    assert!(unknown.is_comparable(&later) && unknown.is_older(&later));
    assert!(!unknown.is_comparable(&known));
    assert!(!unknown.is_older(&known) && !known.is_older(&unknown));
    assert!(!unknown.falls_to(&known) && !known.falls_to(&unknown));
}

#[test]
fn restart_keeps_what_an_unbroken_session_keeps() {
    for n in [700u32, 1536, 1537, 2048, 2560, 3072] {
        let mut image = sessions(3, &[(1, n)]);
        let mut log = open(&mut image, 2);
        append(&mut log, &mut image, 60, 450);
        let unbroken = sessions(3, &[(1, n), (2, 1)]);
        for at in (4096..16384).step_by(8) {
            if slot(&unbroken, at).0 != 2 {
                assert_eq!(slot(&image, at), slot(&unbroken, at));
            } else {
                assert_eq!(slot(&image, at), (2, 60, 450));
            }
        }
    }
}

#[test]
fn session_keeps_exactly_its_newest_records() {
    // Header and three sectors of 512 records.
    for (n, kept) in [
        (1u32, 1u32),
        (512, 512),
        (1536, 1536),
        (1537, 1025),
        (2047, 1535),
        (2048, 1536),
        (2049, 1025),
        (4000, 1440),
    ] {
        let mut image = vec![0u8; 16 * KB];
        let mut log = open(&mut image, 9);
        for k in 0..n {
            append(&mut log, &mut image, k, 400);
        }
        let mut held = vec![false; 1536];
        for k in (n - kept)..n {
            let j = (k % 1536) as usize;
            assert_eq!(slot(&image, 4096 + 8 * j), (9, k, 400));
            held[j] = true;
        }
        for (j, held) in held.iter().enumerate() {
            let at = 4096 + 8 * j;
            assert_eq!(*held, image[at..at + 8] != [0xFF; 8]);
        }
        assert_eq!(&image[..8], b"C2LOG\x01\0\0");
    }
}

#[test]
fn history_of_the_whole_partition_lasts_33_days() {
    let mut image = vec![0u8; 384 * KB];
    let mut log = open(&mut image, 1);
    let capacity = 95 * 512u32;
    assert_eq!(capacity / (24 * 60), 33);
    for k in 0..capacity {
        append(&mut log, &mut image, 60 * k, 400);
    }
    for k in 0..capacity {
        assert_eq!(slot(&image, 4096 + 8 * k as usize), (1, 60 * k, 400));
    }
}

#[test]
fn boot_counter_starts_at_one_and_wraps() {
    for (stored, expected) in [(None, 1), (Some(1), 2), (Some(0xFFFF), 0)] {
        let mut counter = next_boot_count();
        assert_eq!(counter.request(), Some(NvsRequest::Load));
        counter.resume(NvsReply::Value(stored));
        assert_eq!(counter.request(), Some(NvsRequest::Save(expected)));
        counter.resume(NvsReply::Stored);
        assert_eq!(counter, BootCounter::Ready(expected));
        assert_eq!(counter.request(), None);
    }
}

#[test]
fn boot_counter_is_zero_without_storage() {
    let mut counter = next_boot_count();
    counter.resume(NvsReply::Unavailable);
    assert_eq!(counter, BootCounter::Ready(0));
    let mut counter = next_boot_count();
    counter.resume(NvsReply::Value(Some(9)));
    counter.resume(NvsReply::Unavailable);
    assert_eq!(counter, BootCounter::Ready(0));
}

fn run_flash(task: &mut LoggerTask, image: &mut Vec<u8>) {
    while let LoggerAction::Flash(request) = task.action() {
        let reply = serve(image, &request);
        assert_eq!(task.on_flash(&reply), Ok(()));
    }
}

#[test]
fn logger_task_stores_one_record_per_wake() {
    let mut image = vec![0u8; 8 * KB];
    let mut task = logger_task(Some(8192), 4);
    run_flash(&mut task, &mut image);
    assert!(matches!(task.action(), LoggerAction::Sleep { seconds: 60 }));
    task.on_wake(0, 60);
    assert!(matches!(task.action(), LoggerAction::Sleep { seconds: 60 }));
    task.on_wake(812, 120);
    run_flash(&mut task, &mut image);
    assert!(matches!(task.action(), LoggerAction::Sleep { seconds: 60 }));
    task.on_wake(900, (1 << 32) + 5);
    run_flash(&mut task, &mut image);
    assert_eq!(slot(&image, 4096), (4, 120, 812));
    assert_eq!(slot(&image, 4104), (4, 5, 900));
}

#[test]
fn logger_task_stores_the_ticks_with_a_reading() {
    let mut image = vec![0u8; 8 * KB];
    let mut task = logger_task(Some(8192), 4);
    run_flash(&mut task, &mut image);
    let ticks = [(0u32, 60u64), (700, 120), (0, 180), (701, 240), (65536 + 702, 300)];
    for (last_ppm, uptime_s) in ticks {
        task.on_wake(last_ppm, uptime_s);
        run_flash(&mut task, &mut image);
    }
    assert_eq!(slot(&image, 4096), (4, 120, 700));
    assert_eq!(slot(&image, 4104), (4, 240, 701));
    assert_eq!(slot(&image, 4112), (4, 300, 702));
    assert!(image[4120..].iter().all(|&b| b == 0xFF));
}

#[test]
fn logger_task_survives_write_failures() {
    let mut image = vec![0u8; 8 * KB];
    let mut task = logger_task(Some(8192), 4);
    run_flash(&mut task, &mut image);
    task.on_wake(812, 60);
    assert_eq!(task.on_flash(&FlashReply::Failed), Err(WriteFailed));
    assert!(matches!(task.action(), LoggerAction::Sleep { seconds: 60 }));
    task.on_wake(813, 120);
    run_flash(&mut task, &mut image);
    assert_eq!(slot(&image, 4096), (4, 120, 813));
}

#[test]
fn logger_task_stops_when_the_log_cannot_be_opened() {
    let mut task = logger_task(Some(8192), 4);
    assert_eq!(
        task,
        LoggerTask::Opening(Opening {
            size: 8192,
            boot_count: 4,
            stage: OpenStage::ReadHeader
        })
    );
    assert_eq!(task.on_flash(&FlashReply::Failed), Ok(()));
    assert!(matches!(task.action(), LoggerAction::Stop));
}
