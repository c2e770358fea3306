use wave2::components::hier_nav::modules::modules_of;
use bit_vec::BitVec;
use wave2::backend::errors::Waverr;
use wave2::backend::vcd_parser::{parse_vcd, DumpCommand, Header, IDMap, LogicValue};
use wave2::backend::{wdb_from_vcd_bytes, Bucket, InMemWave, ParsedVec, SigType, Wave, WaveDB};

const WIKIPEDIA_VCD: &[u8] = b"
        $date
        Date text.
        $end
        $version
        VCD generator text.
        $end
        $comment
        Any comment text.
        $end
        $timescale 100 ns $end
        $scope module logic $end
        $var wire 8 # data $end
        $var wire 1 $ data_valid $end
        $var wire 1 % en $end
        $var wire 1 & rx_en $end
        $var wire 1 ' tx_en $end
        $var wire 1 ( empty $end
        $var wire 1 ) underrun $end
        $upscope $end
        $enddefinitions $end
        $dumpvars
        bxxxxxxxx #
        x$
        0%
        x&
        x'
        1(
        0)
        $end
        #0
        b10000001 #
        0$
        1%
        #2211
        0'
        #2296
        b0 #
        1$
        #2302
        0$
        #2303
            ";

fn parse(bytes: &[u8]) -> (Header, Vec<Result<DumpCommand, ()>>) {
    let (header, items) = parse_vcd(bytes);
    (header.unwrap(), items)
}

#[test]
fn wikipedia_sample_idmap() {
    let (header, _) = parse(WIKIPEDIA_VCD);
    let idmap = IDMap::from(&header);
    let key_vec = vec![
        "logic.data",
        "logic.data_valid",
        "logic.en",
        "logic.rx_en",
        "logic.tx_en",
        "logic.empty",
        "logic.underrun",
    ];
    assert_eq!(idmap.len(), 7);
    for key in key_vec {
        assert!(idmap.contains_key(key));
    }
    let entries = idmap.entries();
    let idmap_clone: Vec<(String, u64)> =
        bincode::deserialize(&bincode::serialize(&entries).unwrap()[..]).unwrap();
    assert_eq!(idmap_clone, entries);
}

#[test]
fn hello_test() {
    let _bv = BitVec::from_elem(9, true);
    assert_eq!(true, true)
}

/// The buckets of signal `id` in time-slice order, as the store hands them
/// back: a missing slice is a `MissingID`.
fn buckets_of(wdb: &WaveDB, buckets: &[Bucket], id: u32) -> Vec<Result<Bucket, Waverr>> {
    wdb.get_time_slices()
        .into_iter()
        .map(|start| {
            match buckets.iter().find(|b| b.id == id && b.timestamp_range.0 == start) {
                Some(b) => Ok(Bucket {
                    timestamp_range: b.timestamp_range,
                    id: b.id,
                    sig_dumps: b
                        .sig_dumps
                        .iter()
                        .map(|(t, v)| (*t, ParsedVec(v.0.clone(), v.1.clone())))
                        .collect(),
                }),
                None => Err(Waverr::MissingID("Missing bucket")),
            }
        })
        .collect()
}

#[test]
fn wdb_from_wikivcd() {
    let (header, items) = parse(WIKIPEDIA_VCD);
    let wdb = WaveDB::from_vcd("/tmp/rng".to_string(), Some(&header), items);
    let (actualdb, buckets) = match wdb {
        Ok(wdb) => wdb,
        Err(Waverr::VCDErr(vcdmess)) => panic!("{} is the vcd error message", vcdmess),
        Err(Waverr::GenericErr(message)) => panic!("Unhandled error case: {} ", message),
        Err(_) => panic!("Unhandled error case"),
    };
    let id = actualdb.get_id("logic.data").unwrap();
    let var = InMemWave::new("logic.data", buckets_of(&actualdb, &buckets, id)).unwrap();
    assert_eq!(var.sig_type, SigType::Vector(8));
}

#[test]
fn wikivcd_single_bit_signal_and_changes() {
    let (header, items) = parse(WIKIPEDIA_VCD);
    let (wdb, buckets) = WaveDB::from_vcd("wiki".to_string(), Some(&header), items).unwrap();
    assert_eq!(wdb.config.time_range, (0, 2303));
    assert!(!wdb.config.populated);
    let id = wdb.get_id("logic.data_valid").unwrap();
    let wave = InMemWave::new("logic.data_valid", buckets_of(&wdb, &buckets, id)).unwrap();
    assert_eq!(wave.sig_type, SigType::Bit);
    let times: Vec<u32> = wave.signal_content.iter().map(|(t, _)| *t).collect();
    assert_eq!(times, vec![0, 0, 2296, 2302]);
    let data = InMemWave::new("logic.data", buckets_of(&wdb, &buckets, wdb.get_id("logic.data").unwrap()))
        .unwrap();
    assert_eq!(data.signal_content.len(), 3);
    assert_eq!(data.name, "logic.data");
}

#[test]
fn from_vcd_rejects_parse_failure() {
    let items = vec![Ok(DumpCommand::Timestamp(0)), Err(()), Ok(DumpCommand::Timestamp(5))];
    let r = WaveDB::from_vcd("bad".to_string(), None, items);
    assert!(matches!(r, Err(Waverr::VCDErr("Malformed vcd"))));
}

#[test]
fn from_vcd_splits_slices() {
    let items = vec![
        Ok(DumpCommand::ChangeScalar(3, LogicValue::V1)),
        Ok(DumpCommand::Timestamp(9_999)),
        Ok(DumpCommand::ChangeScalar(3, LogicValue::V0)),
        Ok(DumpCommand::Timestamp(10_001)),
        Ok(DumpCommand::ChangeScalar(3, LogicValue::V1)),
    ];
    let (wdb, buckets) = WaveDB::from_vcd("slices".to_string(), None, items).unwrap();
    assert_eq!(wdb.config.time_range, (0, 10_001));
    assert_eq!(buckets.len(), 2);
    assert_eq!(buckets[0].timestamp_range, (0, 10_000));
    assert_eq!(buckets[0].sig_dumps.len(), 2);
    assert_eq!(buckets[1].timestamp_range, (10_000, 20_000));
    assert_eq!(buckets[1].id, 3);
}

#[test]
fn get_id_of_unknown_signal_is_error() {
    let wdb = WaveDB::new("empty".to_string());
    assert!(matches!(wdb.get_id("logic.nothing"), Err(Waverr::GenericErr(_))));
}

#[test]
fn ts2key_names_the_slice() {
    assert_eq!(WaveDB::ts2key(12_345), "10000-20000");
    assert_eq!(WaveDB::ts2key(0), "0-10000");
}

#[test]
fn time_slices_cover_the_range() {
    let mut wdb = WaveDB::new("t".to_string());
    wdb.set_time_range((15_000, 31_000));
    assert_eq!(wdb.get_time_slices(), vec![10_000, 20_000, 30_000, 40_000]);
}

#[test]
fn sig_type_from_width() {
    assert_eq!(SigType::from_width(1), SigType::Bit);
    assert_eq!(SigType::from_width(8), SigType::Vector(8));
    assert_eq!(SigType::from_width(0), SigType::Vector(0));
}

#[test]
fn parsed_vec_encodes_four_states() {
    let pv = ParsedVec::from(vec![LogicValue::V1, LogicValue::X, LogicValue::Z, LogicValue::V0]);
    assert_eq!(pv.len(), 4);
    let low: Vec<bool> = pv.0.iter().collect();
    assert_eq!(low, vec![true, true, false, false]);
    let high: Vec<bool> = pv.1.as_ref().unwrap().iter().collect();
    assert_eq!(high, vec![false, true, true, false]);
    let driven = ParsedVec::from(vec![LogicValue::V0, LogicValue::V1]);
    assert!(driven.1.is_none());
}

#[test]
fn bucket_collects_changes() {
    let mut b = Bucket::new(7, (0, 10_000));
    b.add_new_signal(5, vec![LogicValue::V1]);
    b.add_new_signal(6, vec![LogicValue::V0]);
    assert_eq!(b.sig_dumps.len(), 2);
    assert_eq!(b.get_db_idx(), "0-10000");
    assert_eq!(Bucket::default().id, 0);
}

#[test]
fn in_mem_wave_skips_missing_and_stops_at_error() {
    let mut b = Bucket::new(1, (0, 10_000));
    b.add_new_signal(3, vec![LogicValue::V1, LogicValue::V0]);
    let ok = InMemWave::new("sig", vec![Err(Waverr::MissingID("none")), Ok(b)]).unwrap();
    assert_eq!(ok.sig_type, SigType::Vector(2));
    assert_eq!(ok.signal_content.len(), 1);
    let err = InMemWave::new(
        "sig",
        vec![Err(Waverr::SledError("io".to_string())), Err(Waverr::GenericErr("later".to_string()))],
    );
    assert!(matches!(err, Err(Waverr::SledError(_))));
}

#[test]
fn placeholder_waves() {
    let w = Wave::default();
    assert_eq!(w.name, "PlaceholderWave");
    assert_eq!(w.sig_type, SigType::Bit);
    assert_eq!(w.signal_content, vec![(0, 1), (10, 0), (20, 1), (30, 0), (50, 1), (500, 0)]);
    assert_eq!(Wave::default_vec().sig_type, SigType::Vector(4));
}

#[test]
fn wdb_from_bytes_matches_parsed_load() {
    let (wdb, buckets) = wdb_from_vcd_bytes("wiki".to_string(), WIKIPEDIA_VCD).unwrap();
    assert_eq!(wdb.config.db_name, "wiki");
    assert_eq!(wdb.config.time_range, (0, 2303));
    assert_eq!(wdb.id_map.len(), 7);
    let (header, items) = parse(WIKIPEDIA_VCD);
    let (_, again) = WaveDB::from_vcd("wiki".to_string(), Some(&header), items).unwrap();
    assert_eq!(buckets, again);
}

#[test]
fn wdb_from_bytes_rejects_times_past_the_last_slice() {
    let text = b"$enddefinitions $end\n#4294967290\n1!\n";
    let r = wdb_from_vcd_bytes("late".to_string(), &text[..]);
    assert!(matches!(r, Err(Waverr::VCDErr("Timestamp out of range"))));
}

#[test]
fn wdb_from_bytes_of_malformed_input() {
    let text = b"$enddefinitions $end\n#12\nthis is not a change\n";
    let r = wdb_from_vcd_bytes("bad".to_string(), &text[..]);
    assert!(matches!(r, Err(Waverr::VCDErr("Malformed vcd"))));
}

#[test]
fn a_jump_forward_starts_a_new_slice() {
    let items = vec![
        Ok(DumpCommand::ChangeScalar(1, LogicValue::V1)),
        Ok(DumpCommand::Timestamp(100)),
        Ok(DumpCommand::ChangeScalar(1, LogicValue::V0)),
        Ok(DumpCommand::Timestamp(10_200)),
        Ok(DumpCommand::ChangeScalar(1, LogicValue::V1)),
    ];
    let (_, buckets) = WaveDB::from_vcd("jump".to_string(), None, items).unwrap();
    assert_eq!(buckets.len(), 2);
    assert_eq!(buckets[0].timestamp_range, (0, 10_000));
    let first: Vec<u32> = buckets[0].sig_dumps.iter().map(|(t, _)| *t).collect();
    assert_eq!(first, vec![0, 100]);
    assert_eq!(buckets[1].timestamp_range, (10_000, 20_000));
    assert_eq!(buckets[1].sig_dumps[0].0, 10_200);
    for b in buckets.iter() {
        for (t, _) in b.sig_dumps.iter() {
            assert!(b.timestamp_range.0 <= *t && *t < b.timestamp_range.1);
        }
    }
}

#[test]
fn wdb_from_bytes_reports_parse_error_before_late_time() {
    let text = b"$enddefinitions $end\n#12\nthis is not a change\n#4294967290\n";
    let r = wdb_from_vcd_bytes("bad".to_string(), &text[..]);
    assert!(matches!(r, Err(Waverr::VCDErr("Malformed vcd"))));
}

#[test]
fn modules_of_lists_scopes_in_preorder() {
    let text = b"
        $scope module top $end
        $var wire 1 # clk $end
        $scope module cpu $end
        $var wire 1 $ alu_en $end
        $upscope $end
        $scope module mem $end
        $upscope $end
        $upscope $end
        $enddefinitions $end
        ";
    let (header, _) = parse(&text[..]);
    let (map, signals) = modules_of(&header);
    let names: Vec<&str> = map.module_list.iter().map(|m| m.name.as_str()).collect();
    assert_eq!(names, vec!["top", "cpu", "mem"]);
    assert_eq!(map.roots, vec![0]);
    assert_eq!(map.module_list[0].submodules, vec![1, 2]);
    assert_eq!(map.module_list[1].self_idx, 1);
    assert_eq!(signals[0], vec!["top.clk".to_string()]);
    assert_eq!(signals[1], vec!["top.cpu.alu_en".to_string()]);
    assert!(signals[2].is_empty());
    let (wiki, _) = parse(WIKIPEDIA_VCD);
    let (wmap, wsignals) = modules_of(&wiki);
    assert_eq!(wmap.module_list.len(), 1);
    assert_eq!(wsignals[0].len(), 7);
    assert_eq!(wsignals[0][0], "logic.data");
}
