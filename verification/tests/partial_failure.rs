use ps_hkey::Store;
use scatter_send::mapping::{read_segment, write_segment};
use scatter_send::{File, ScatterSendError, Segment, SEGMENT_SIZE};

fn pattern(n: usize) -> Vec<u8> {
    (0..n).map(|i| (i % 239) as u8).collect()
}

fn runtime() -> tokio::runtime::Runtime {
    tokio::runtime::Builder::new_current_thread()
        .build()
        .expect("runtime")
}

fn create_sized(path: &str, len: u64) {
    let rt = runtime();
    rt.block_on(async {
        let f = tokio::fs::OpenOptions::new()
            .create(true)
            .read(true)
            .write(true)
            .truncate(false)
            .open(path)
            .await
            .expect("open destination");
        f.set_len(len).await.expect("set length");
    });
}

fn remove_file(path: &str) {
    let rt = runtime();
    let _ = rt.block_on(tokio::fs::remove_file(path));
}

#[test]
fn failed_segment_aborts_but_earlier_writes_remain() {
    let size = 3 * SEGMENT_SIZE;
    let content = pattern(size);
    let store = ps_hkey::InMemoryStore::default();
    let hkey = store.put(&content).expect("put");
    let desc = File {
        hkey: hkey.to_string(),
        name: String::from("partial.bin"),
        size: size as u64,
    };

    let p = "/tmp/ss_partial.bin";
    create_sized(p, desc.size);
    let mut wmap = ps_mmap::WritableMemoryMap::map_path(p).expect("map destination");

    let parsed = ps_hkey::Hkey::parse(desc.hkey.as_bytes()).expect("parse");
    let plan = desc.collect_plan().expect("plan");
    assert_eq!(plan.len(), 3);
    let mut parts: Vec<Vec<u8>> = Vec::new();
    for seg in &plan {
        let bytes = parsed
            .resolve_slice(&store, seg.start..seg.end)
            .expect("resolve");
        parts.push(bytes.to_vec());
    }
    // Make the middle segment's resolution come back short.
    parts[1].pop();

    let r = desc.collect_segments(&mut wmap, &parts);
    assert!(matches!(r, Err(ScatterSendError::SizeMismatch)));

    // The segment written before the failure is present at its offsets.
    let first = read_segment(&wmap, plan[0]).expect("read first");
    assert_eq!(first, content[..SEGMENT_SIZE].to_vec());
    // The segments at and after the failure were never written: the freshly
    // allocated destination still holds zeroes there.
    let second = read_segment(&wmap, plan[1]).expect("read second");
    assert_eq!(second, vec![0u8; SEGMENT_SIZE]);
    let third = read_segment(&wmap, plan[2]).expect("read third");
    assert_eq!(third, vec![0u8; SEGMENT_SIZE]);

    drop(wmap);
    remove_file(p);
}

#[test]
fn write_segment_rejects_wrong_length_and_bad_ranges() {
    let p = "/tmp/ss_reject.bin";
    create_sized(p, 1024);
    let mut wmap = ps_mmap::WritableMemoryMap::map_path(p).expect("map destination");

    let seg = Segment { start: 0, end: 16 };
    let short = vec![1u8; 15];
    let r = write_segment(&mut wmap, seg, &short);
    assert!(matches!(r, Err(ScatterSendError::SizeMismatch)));

    let beyond = Segment {
        start: 1020,
        end: 1030,
    };
    let data = vec![2u8; 10];
    let r = write_segment(&mut wmap, beyond, &data);
    assert!(matches!(r, Err(ScatterSendError::SizeMismatch)));

    let inverted = Segment { start: 8, end: 4 };
    assert!(read_segment(&wmap, inverted).is_none());

    // A well-formed write lands exactly where it was aimed.
    let good = vec![9u8; 16];
    write_segment(&mut wmap, seg, &good).expect("write");
    assert_eq!(read_segment(&wmap, seg).expect("read"), good);

    drop(wmap);
    remove_file(p);
}
