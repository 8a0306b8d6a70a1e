use vector_collection::config::{CollectionParams, WalConfig};
use vector_collection::holder::SegmentHolder;
use vector_collection::operations::{
    CollectionError, CollectionUpdateOperations, PayloadOps, PointInsertOperations,
    PointOperations,
};
use vector_collection::payload::{Condition, FieldMatch, Filter, PayloadMap, PayloadType};
use vector_collection::payload::matches_filter;
use vector_collection::search::{f32_bits_order_key, top_k, ScoredPoint};
use vector_collection::segment::{OperationError, Segment, StoredPoint};
use vector_collection::types::{
    is_appendable, segment_type_of, Distance, HnswConfig, Indexes, PayloadIndexType,
    SegmentConfig, SegmentType, StorageType,
};
use vector_collection::updater::SimpleSegmentUpdater;
use vector_collection::index::{use_full_scan, CardinalityEstimation};
use vector_collection::operations::{
    CollectionInfo, CollectionStatus, Record, RecommendRequest, SearchRequest, UpdateResult,
    UpdateStatus,
};
use vector_collection::config::{CollectionConfig, OptimizersConfig};

fn plain_config(dim: usize) -> SegmentConfig {
    SegmentConfig {
        vector_size: dim,
        distance: Distance::Cosine,
        index: Indexes::Plain,
        payload_index: Some(PayloadIndexType::Plain),
        storage_type: StorageType::InMemory,
    }
}

fn cosine_score(v: &[f32], q: &[f32]) -> f32 {
    let dot: f32 = v.iter().zip(q.iter()).map(|(a, b)| a * b).sum();
    let nv: f32 = v.iter().map(|a| a * a).sum::<f32>().sqrt();
    let nq: f32 = q.iter().map(|a| a * a).sum::<f32>().sqrt();
    dot / (nv * nq)
}

#[test]
fn cosine_distance_ordering() {
    // vectors a=[1,0], b=[0,1], c=[1,1], query [1,0]: results [a, c, b]
    let a = [1.0f32, 0.0];
    let b = [0.0f32, 1.0];
    let c = [1.0f32, 1.0];
    let query = [1.0f32, 0.0];
    let candidates = vec![
        ScoredPoint { id: 1, score: f32_bits_order_key(cosine_score(&a, &query).to_bits()) },
        ScoredPoint { id: 2, score: f32_bits_order_key(cosine_score(&b, &query).to_bits()) },
        ScoredPoint { id: 3, score: f32_bits_order_key(cosine_score(&c, &query).to_bits()) },
    ];
    let result = top_k(candidates, 3);
    let ids: Vec<u64> = result.iter().map(|p| p.id).collect();
    assert_eq!(ids, vec![1, 3, 2]);
}

#[test]
fn order_key_matches_float_order() {
    assert_eq!(f32_bits_order_key(0.0f32.to_bits()), 0);
    assert_eq!(f32_bits_order_key((-0.0f32).to_bits()), 0);
    assert_eq!(f32_bits_order_key(1.0f32.to_bits()), 0x3F80_0000);
    assert_eq!(f32_bits_order_key((-1.0f32).to_bits()), -0x3F80_0000);
    let samples = [-3.5f32, -1.0, -0.25, 0.0, 0.125, 1.0, 2.5, 1000.0];
    for w in samples.windows(2) {
        assert!(
            f32_bits_order_key(w[0].to_bits()) < f32_bits_order_key(w[1].to_bits()),
            "order key must rise with the float value"
        );
    }
}

#[test]
fn top_k_selects_and_breaks_ties_by_id() {
    let candidates = vec![
        ScoredPoint { id: 7, score: 10 },
        ScoredPoint { id: 3, score: 50 },
        ScoredPoint { id: 9, score: 50 },
        ScoredPoint { id: 1, score: 20 },
    ];
    let result = top_k(candidates.clone(), 3);
    let ids: Vec<u64> = result.iter().map(|p| p.id).collect();
    assert_eq!(ids, vec![3, 9, 1]);
    let all = top_k(candidates, 10);
    assert_eq!(all.len(), 4);
    let ids: Vec<u64> = all.iter().map(|p| p.id).collect();
    assert_eq!(ids, vec![3, 9, 1, 7]);
}

#[test]
fn segment_classification_and_appendability() {
    let mut config = plain_config(2);
    assert_eq!(segment_type_of(&config), SegmentType::Plain);
    assert!(is_appendable(&config));

    // a payload index alone does not stop writes
    config.payload_index = Some(PayloadIndexType::Struct);
    assert_eq!(segment_type_of(&config), SegmentType::Indexed);
    assert!(is_appendable(&config));

    config.payload_index = Some(PayloadIndexType::Plain);
    config.index = Indexes::Hnsw(HnswConfig::default());
    assert_eq!(segment_type_of(&config), SegmentType::Indexed);
    assert!(!is_appendable(&config));

    config.index = Indexes::Plain;
    config.storage_type = StorageType::Mmap;
    assert_eq!(segment_type_of(&config), SegmentType::Plain);
    assert!(!is_appendable(&config));
}

#[test]
fn state_round_trip() {
    let config = plain_config(3);
    let mut segment = Segment::create(0, &config);
    segment.upsert_point(7, 42, &vec![1, 2, 3], None).unwrap();
    let state = segment.get_state();
    assert_eq!(state.version, 7);

    let reloaded = Segment::create(state.version, &state.config);
    let restate = reloaded.get_state();
    assert_eq!(restate.version, state.version);
    assert_eq!(restate.config.vector_size, config.vector_size);
    assert_eq!(restate.config.distance, config.distance);
    assert_eq!(restate.config.storage_type, config.storage_type);
    assert_eq!(reloaded.info().segment_type, segment.info().segment_type);
    assert_eq!(reloaded.info().is_appendable, segment.info().is_appendable);
}

#[test]
fn segment_version_gate_skips_old_operations() {
    let config = plain_config(2);
    let mut segment = Segment::create(10, &config);
    // an operation older than the version is skipped
    assert_eq!(segment.upsert_point(5, 1, &vec![1, 2], None).unwrap(), false);
    assert_eq!(segment.vectors_count(), 0);
    // one at the version is applied (a batch shares one number)
    assert_eq!(segment.upsert_point(10, 1, &vec![1, 2], None).unwrap(), true);
    assert_eq!(segment.vectors_count(), 1);
    // replaying it is idempotent
    assert_eq!(segment.upsert_point(10, 1, &vec![1, 2], None).unwrap(), true);
    assert_eq!(segment.vectors_count(), 1);
}

#[test]
fn segment_rejects_wrong_dimension_and_non_appendable_writes() {
    let config = plain_config(2);
    let mut segment = Segment::create(0, &config);
    match segment.upsert_point(1, 1, &vec![1, 2, 3], None) {
        Err(OperationError::WrongVector {
            expected_dim,
            received_dim,
        }) => {
            assert_eq!(expected_dim, 2);
            assert_eq!(received_dim, 3);
        }
        _ => panic!("expected a wrong vector error"),
    }

    let mut mmap_config = plain_config(2);
    mmap_config.storage_type = StorageType::Mmap;
    let mut frozen = Segment::create(0, &mmap_config);
    match frozen.upsert_point(1, 1, &vec![1, 2], None) {
        Err(OperationError::ServiceError { .. }) => {}
        _ => panic!("expected a service error on a non-appendable segment"),
    }
}

#[test]
fn collection_error_kinds() {
    let e = CollectionError::from(OperationError::WrongVector {
        expected_dim: 2,
        received_dim: 3,
    });
    assert!(matches!(e, CollectionError::BadInput { .. }));
    let e = CollectionError::from(OperationError::PointIdError { missed_point_id: 9 });
    match e {
        CollectionError::NotFound { missed_point_id } => assert_eq!(missed_point_id, 9),
        _ => panic!("expected not found"),
    }
    let e = CollectionError::from(OperationError::ServiceError {
        description: "disk failed".to_owned(),
    });
    assert!(matches!(e, CollectionError::ServiceError { .. }));
    let e = CollectionError::from(OperationError::TypeError {
        field_name: "number".to_owned(),
    });
    assert!(matches!(e, CollectionError::BadInput { .. }));
}

#[test]
fn payload_map_and_filters() {
    let mut payload = PayloadMap::new();
    payload.insert(
        "color".to_owned(),
        PayloadType::Keyword(vec!["red".to_owned(), "blue".to_owned()]),
    );
    payload.insert("number".to_owned(), PayloadType::Integer(vec![7, 9]));
    assert!(payload.contains_key(&"color".to_owned()));
    assert!(!payload.contains_key(&"size".to_owned()));

    let red = Filter {
        must: vec![Condition::Match(FieldMatch {
            key: "color".to_owned(),
            keyword: Some("red".to_owned()),
            integer: None,
        })],
        must_not: vec![],
    };
    assert!(matches_filter(&payload, &red));

    let green = Filter {
        must: vec![Condition::Match(FieldMatch {
            key: "color".to_owned(),
            keyword: Some("green".to_owned()),
            integer: None,
        })],
        must_not: vec![],
    };
    assert!(!matches_filter(&payload, &green));

    let not_seven = Filter {
        must: vec![],
        must_not: vec![Condition::Match(FieldMatch {
            key: "number".to_owned(),
            keyword: None,
            integer: Some(7),
        })],
    };
    assert!(!matches_filter(&payload, &not_seven));

    payload.remove(&"number".to_owned());
    assert!(matches_filter(&payload, &not_seven));

    let mut keys = payload.keys();
    keys.sort();
    assert_eq!(keys, vec!["color".to_owned()]);
}

#[test]
fn filtered_read_equals_scan_intersection() {
    let config = plain_config(1);
    let mut segment = Segment::create(0, &config);
    for id in 0..20u64 {
        let mut payload = PayloadMap::new();
        payload.insert(
            "parity".to_owned(),
            PayloadType::Integer(vec![(id % 2) as i64]),
        );
        segment
            .upsert_point(1, id, &vec![id as u32], Some(&payload))
            .unwrap();
    }
    let even = Filter {
        must: vec![Condition::Match(FieldMatch {
            key: "parity".to_owned(),
            keyword: None,
            integer: Some(0),
        })],
        must_not: vec![],
    };
    let mut filtered = segment.read_filtered(Some(&even));
    let scan = segment.read_filtered(None);
    let mut expected: Vec<u64> = scan.into_iter().filter(|id| id % 2 == 0).collect();
    filtered.sort();
    expected.sort();
    assert_eq!(filtered, expected);
    assert_eq!(filtered.len(), 10);
}

#[test]
fn recovery_replays_the_log() {
    let dim = 2;
    let config = plain_config(dim);

    // live collection: one appendable segment, ten upserts, no flush
    let mut holder = SegmentHolder::new();
    holder.add(Segment::create(0, &config));
    let mut updater = SimpleSegmentUpdater::new(holder);

    let mut wal: Vec<(u64, CollectionUpdateOperations)> = Vec::new();
    for k in 0..10u64 {
        let op = CollectionUpdateOperations::PointOperation(PointOperations::UpsertPoints(
            PointInsertOperations::BatchPoints {
                ids: vec![100 + k],
                vectors: vec![vec![k as u32, (k + 1) as u32]],
                payloads: None,
            },
        ));
        let op_num = 1 + k;
        updater.process_point_operation(op_num, match &op {
            CollectionUpdateOperations::PointOperation(p) => p,
            _ => unreachable!(),
        })
        .unwrap();
        wal.push((op_num, op));
    }
    let mut live_ids = Vec::new();
    for i in 0..updater.segments.len() {
        let (_sid, segment) = updater.segments.segment_at(i);
        live_ids.extend(segment.read_filtered(None));
    }
    live_ids.sort();

    // crash before checkpoint: segments restart empty, the log survives
    let mut recovered_holder = SegmentHolder::new();
    recovered_holder.add(Segment::create(0, &config));
    let mut recovered = SimpleSegmentUpdater::new(recovered_holder);
    recovered.replay(&wal).unwrap();

    let mut recovered_ids = Vec::new();
    let mut vectors_count = 0;
    for i in 0..recovered.segments.len() {
        let (_sid, segment) = recovered.segments.segment_at(i);
        vectors_count += segment.vectors_count();
        recovered_ids.extend(segment.read_filtered(None));
    }
    recovered_ids.sort();

    assert_eq!(vectors_count, 10);
    assert_eq!(recovered_ids, live_ids);

    // replaying the same suffix again changes nothing
    recovered.replay(&wal).unwrap();
    let mut again = Vec::new();
    for i in 0..recovered.segments.len() {
        let (_sid, segment) = recovered.segments.segment_at(i);
        again.extend(segment.read_filtered(None));
    }
    again.sort();
    assert_eq!(again, recovered_ids);
}

#[test]
fn payload_operations_route_to_the_owner() {
    let config = plain_config(1);
    let mut holder = SegmentHolder::new();
    holder.add(Segment::create(0, &config));
    let mut updater = SimpleSegmentUpdater::new(holder);

    let upsert = PointOperations::UpsertPoints(PointInsertOperations::BatchPoints {
        ids: vec![1, 2],
        vectors: vec![vec![10], vec![20]],
        payloads: None,
    });
    updater.process_point_operation(1, &upsert).unwrap();

    let mut patch = PayloadMap::new();
    patch.insert("number".to_owned(), PayloadType::Integer(vec![5]));
    let set = PayloadOps::SetPayload {
        payload: patch,
        points: vec![1],
    };
    assert_eq!(updater.process_payload_operation(2, &set).unwrap(), 1);

    let missing = PayloadOps::ClearPayload { points: vec![99] };
    match updater.process_payload_operation(3, &missing) {
        Err(CollectionError::NotFound { missed_point_id }) => assert_eq!(missed_point_id, 99),
        other => panic!("expected not found, got {:?}", other.is_ok()),
    }

    let delete = PointOperations::DeletePoints { ids: vec![1] };
    assert_eq!(updater.process_point_operation(4, &delete).unwrap(), 1);
    let (_sid, segment) = updater.segments.segment_at(0);
    assert!(!segment.has_point(1));
    assert!(segment.has_point(2));
}

#[test]
fn wal_options_formula() {
    let config = WalConfig::default();
    assert_eq!(config.wal_capacity_mb, 32);
    assert_eq!(config.wal_segments_ahead, 0);
    let (capacity, ahead) = config.wal_options();
    assert_eq!(capacity, 32 * 1024 * 1024);
    assert_eq!(ahead, 0);
}

#[test]
fn collection_params_carry_dimension_and_distance() {
    let params = CollectionParams {
        vector_size: 4,
        distance: Distance::Cosine,
    };
    assert_eq!(params.vector_size, 4);
    assert_eq!(params.distance, Distance::Cosine);
}

#[test]
fn full_scan_threshold_decision() {
    // with full_scan_threshold=100, a filter selecting 10 ids uses
    // brute force; one selecting 10000 walks the graph
    let narrow = CardinalityEstimation { min: 10, exp: 10, max: 10 };
    let wide = CardinalityEstimation { min: 10000, exp: 10000, max: 10000 };
    assert!(use_full_scan(&narrow, 100));
    assert!(!use_full_scan(&wide, 100));
}

#[test]
fn flush_and_vector_access() {
    let config = plain_config(2);
    let mut segment = Segment::create(0, &config);
    segment.upsert_point(3, 11, &vec![8, 9], None).unwrap();
    assert_eq!(segment.version(), 3);
    let flushed = segment.flush();
    assert_eq!(flushed, 3);
    assert_eq!(segment.vector(11).unwrap(), &vec![8u32, 9]);
    match segment.vector(12) {
        Err(OperationError::PointIdError { missed_point_id }) => assert_eq!(missed_point_id, 12),
        _ => panic!("expected a missing point error"),
    }
    match segment.payload(12) {
        Err(OperationError::PointIdError { missed_point_id }) => assert_eq!(missed_point_id, 12),
        _ => panic!("expected a missing point error"),
    }
}

#[test]
fn request_and_result_envelopes() {
    let request = SearchRequest {
        vector: vec![1.0f32.to_bits(), 0.0f32.to_bits()],
        filter: None,
        params: None,
        top: 5,
    };
    assert_eq!(request.top, 5);

    let recommend = RecommendRequest {
        positive: vec![1, 2],
        negative: vec![3],
        filter: None,
        params: None,
        top: 3,
    };
    assert_eq!(recommend.positive.len(), 2);

    let record = Record { id: 7, payload: None, vector: Some(vec![1, 2]) };
    assert_eq!(record.id, 7);

    let result = UpdateResult { operation_id: 9, status: UpdateStatus::Acknowledged };
    assert_eq!(result.status, UpdateStatus::Acknowledged);
    assert!(UpdateStatus::Completed != UpdateStatus::Acknowledged);

    let info = CollectionInfo {
        status: CollectionStatus::Green,
        vectors_count: 10,
        segments_count: 3,
        disk_data_size: 0,
        ram_data_size: 0,
        config: CollectionConfig {
            params: CollectionParams { vector_size: 2, distance: Distance::Cosine },
            hnsw_config: HnswConfig::default(),
            optimizer_config: OptimizersConfig {
                max_segment_number: 10,
                memmap_threshold: 1000,
                indexing_threshold: 1000,
                payload_indexing_threshold: 50,
                flush_interval_sec: 60,
            },
            wal_config: WalConfig::default(),
        },
    };
    assert_eq!(info.status, CollectionStatus::Green);
    assert_eq!(info.vectors_count, 10);
}

#[test]
fn segment_content_round_trip() {
    // a populated, indexed segment
    let config = plain_config(2);
    let mut segment = Segment::create(0, &config);
    let mut payload = PayloadMap::new();
    payload.insert("number".to_owned(), PayloadType::Integer(vec![5]));
    segment.upsert_point(3, 1, &vec![10, 20], Some(&payload)).unwrap();
    segment.upsert_point(3, 2, &vec![30, 40], None).unwrap();
    segment.create_field_index(4, &"number".to_owned()).unwrap();

    // extract its persistable parts through the public reading API,
    // and rebuild it through the public construction API
    let state = segment.get_state();
    let mut rebuilt = Segment::create(state.version, &state.config);
    for id in segment.read_filtered(None) {
        rebuilt.ingest_point(StoredPoint {
            id,
            vector: segment.vector(id).unwrap().clone(),
            payload: segment.payload(id).unwrap(),
        });
    }
    for field in segment.get_indexed_fields() {
        rebuilt.mark_indexed(field);
    }

    // the rebuilt segment reports the same description
    assert_eq!(rebuilt.version(), segment.version());
    assert_eq!(rebuilt.info().num_vectors, segment.info().num_vectors);
    assert_eq!(rebuilt.info().segment_type, segment.info().segment_type);
    assert!(rebuilt.info().schema.contains_key(&"number".to_owned()));
    assert!(rebuilt.info().schema.indexed(&"number".to_owned()));
    assert_eq!(rebuilt.vector(1).unwrap(), segment.vector(1).unwrap());
    let mut a = rebuilt.read_filtered(None);
    let mut b = segment.read_filtered(None);
    a.sort();
    b.sort();
    assert_eq!(a, b);
}
