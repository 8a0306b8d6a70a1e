use vector_collection::config::CollectionParams;
use vector_collection::holder::SegmentHolder;
use vector_collection::operations::{
    FieldIndexOperations, PointInsertOperations, PointOperations,
};
use vector_collection::optimizer::{IndexingOptimizer, OptimizerThresholds};
use vector_collection::segment::{Segment, SegmentInfo};
use vector_collection::types::{
    Distance, HnswConfig, Indexes, PayloadIndexType, SegmentConfig, SegmentType, StorageType,
};
use vector_collection::updater::SimpleSegmentUpdater;

fn random_segment(id_base: u64, opnum: u64, num_points: u64, dim: usize) -> Segment {
    let config = SegmentConfig {
        vector_size: dim,
        distance: Distance::Dot,
        index: Indexes::Plain,
        payload_index: Some(PayloadIndexType::Plain),
        storage_type: StorageType::InMemory,
    };
    let mut segment = Segment::create(opnum, &config);
    for p in 0..num_points {
        let vector: Vec<u32> = (0..dim).map(|d| (p as u32).wrapping_mul(31).wrapping_add(d as u32)).collect();
        segment
            .upsert_point(opnum, id_base + p, &vector, None)
            .unwrap();
    }
    segment
}

fn collect_infos(holder: &SegmentHolder) -> Vec<SegmentInfo> {
    let mut infos = Vec::new();
    for i in 0..holder.len() {
        let (_sid, segment) = holder.segment_at(i);
        infos.push(segment.info());
    }
    infos
}

#[test]
fn test_indexing_optimizer() {
    let mut holder = SegmentHolder::new();

    let payload_field = "number".to_owned();

    let dim = 4;

    let mut opnum = 101..1000000u64;

    let small_segment = random_segment(10000, opnum.next().unwrap(), 25, dim);
    let middle_segment = random_segment(20000, opnum.next().unwrap(), 100, dim);
    let large_segment = random_segment(30000, opnum.next().unwrap(), 200, dim);

    let segment_config = small_segment.config();

    let small_segment_id = holder.add(small_segment);
    let middle_segment_id = holder.add(middle_segment);
    let large_segment_id = holder.add(large_segment);

    let mut index_optimizer = IndexingOptimizer::new(
        OptimizerThresholds {
            memmap_threshold: 1000,
            indexing_threshold: 1000,
            payload_indexing_threshold: 50,
        },
        "segments_dir".to_owned(),
        "segments_temp_dir".to_owned(),
        CollectionParams {
            vector_size: segment_config.vector_size,
            distance: segment_config.distance,
        },
        HnswConfig::default(),
    );

    let mut updater = SimpleSegmentUpdater::new(holder);

    // ---- check condition for the memmap promotion
    let suggested_to_optimize = index_optimizer.check_condition(&updater.segments);
    assert!(suggested_to_optimize.is_empty());

    index_optimizer.thresholds_config.memmap_threshold = 150;
    index_optimizer.thresholds_config.indexing_threshold = 50;

    let suggested_to_optimize = index_optimizer.check_condition(&updater.segments);
    assert!(suggested_to_optimize.contains(&large_segment_id));

    // ----- create an indexed field ------
    updater
        .process_field_index_operation(
            opnum.next().unwrap(),
            &FieldIndexOperations::CreateIndex(payload_field.clone()),
        )
        .unwrap();

    // ------ plain -> memmap & indexed payload
    let suggested_to_optimize = index_optimizer.check_condition(&updater.segments);
    assert!(suggested_to_optimize.contains(&large_segment_id));
    index_optimizer
        .optimize(&mut updater.segments, suggested_to_optimize)
        .unwrap();

    // ------ plain -> indexed payload
    let suggested_to_optimize = index_optimizer.check_condition(&updater.segments);
    assert!(suggested_to_optimize.contains(&middle_segment_id));
    index_optimizer
        .optimize(&mut updater.segments, suggested_to_optimize)
        .unwrap();

    // ------- keep the smallest segment without changes
    let suggested_to_optimize = index_optimizer.check_condition(&updater.segments);
    assert!(suggested_to_optimize.is_empty());

    assert_eq!(
        updater.segments.len(),
        3,
        "Testing no new segments were created"
    );

    let infos = collect_infos(&updater.segments);
    let mut configs = Vec::new();
    for i in 0..updater.segments.len() {
        let (_sid, segment) = updater.segments.segment_at(i);
        configs.push(segment.config());
    }

    let indexed_count = infos
        .iter()
        .filter(|info| info.segment_type == SegmentType::Indexed)
        .count();
    assert_eq!(
        indexed_count, 2,
        "Testing that 2 segments are actually indexed"
    );

    let mmap_count = configs
        .iter()
        .filter(|config| config.storage_type == StorageType::Mmap)
        .count();
    assert_eq!(
        mmap_count, 1,
        "Testing that only largest segment is not Mmap"
    );

    for info in infos.iter() {
        assert!(
            info.schema.contains_key(&payload_field),
            "Testing that payload is not lost"
        );
        assert!(
            info.schema.indexed(&payload_field),
            "Testing that payload index is not lost"
        );
    }

    let insert_point_ops = PointOperations::UpsertPoints(PointInsertOperations::BatchPoints {
        ids: vec![501, 502, 503],
        vectors: vec![
            vec![
                1.0f32.to_bits(),
                0.0f32.to_bits(),
                0.5f32.to_bits(),
                0.0f32.to_bits(),
            ],
            vec![
                1.0f32.to_bits(),
                0.0f32.to_bits(),
                0.5f32.to_bits(),
                0.5f32.to_bits(),
            ],
            vec![
                1.0f32.to_bits(),
                0.0f32.to_bits(),
                0.5f32.to_bits(),
                1.0f32.to_bits(),
            ],
        ],
        payloads: None,
    });

    let smallest_size = infos.iter().map(|info| info.num_vectors).min().unwrap();

    updater
        .process_point_operation(opnum.next().unwrap(), &insert_point_ops)
        .unwrap();

    let new_infos = collect_infos(&updater.segments);
    let new_smallest_size = new_infos.iter().map(|info| info.num_vectors).min().unwrap();

    assert_eq!(
        new_smallest_size,
        smallest_size + 3,
        "Testing that new data is added to an appendable segment only"
    );

    // ---- a new appendable segment should be created if none is left

    // index even the smallest segment
    index_optimizer.thresholds_config.payload_indexing_threshold = 20;
    let suggested_to_optimize = index_optimizer.check_condition(&updater.segments);
    assert!(suggested_to_optimize.contains(&small_segment_id));
    index_optimizer
        .optimize(&mut updater.segments, suggested_to_optimize)
        .unwrap();

    let new_infos2 = collect_infos(&updater.segments);

    assert!(
        new_infos2.len() > new_infos.len(),
        "Check that new appendable segment was created"
    );

    let insert_point_ops = PointOperations::UpsertPoints(PointInsertOperations::BatchPoints {
        ids: vec![601, 602, 603],
        vectors: vec![
            vec![
                0.0f32.to_bits(),
                1.0f32.to_bits(),
                0.5f32.to_bits(),
                0.0f32.to_bits(),
            ],
            vec![
                0.0f32.to_bits(),
                1.0f32.to_bits(),
                0.5f32.to_bits(),
                0.5f32.to_bits(),
            ],
            vec![
                0.0f32.to_bits(),
                1.0f32.to_bits(),
                0.5f32.to_bits(),
                1.0f32.to_bits(),
            ],
        ],
        payloads: None,
    });

    updater
        .process_point_operation(opnum.next().unwrap(), &insert_point_ops)
        .unwrap();
}

#[test]
fn optimizer_preserves_points_and_appendability() {
    let mut holder = SegmentHolder::new();
    let seg = random_segment(100, 5, 60, 4);
    let mut expected_ids = seg.read_filtered(None);
    let sid = holder.add(seg);

    let optimizer = IndexingOptimizer::new(
        OptimizerThresholds {
            memmap_threshold: 1000,
            indexing_threshold: 50,
            payload_indexing_threshold: 50,
        },
        "segments".to_owned(),
        "temp".to_owned(),
        CollectionParams {
            vector_size: 4,
            distance: Distance::Dot,
        },
        HnswConfig::default(),
    );

    let suggested = optimizer.check_condition(&holder);
    assert_eq!(suggested, vec![sid]);
    optimizer.optimize(&mut holder, suggested).unwrap();

    // all points survived the rewrite, and an appendable segment exists
    let mut surviving = Vec::new();
    let mut appendable = 0;
    for i in 0..holder.len() {
        let (_sid, segment) = holder.segment_at(i);
        surviving.extend(segment.read_filtered(None));
        if segment.is_appendable() {
            appendable += 1;
        }
    }
    expected_ids.sort();
    surviving.sort();
    assert_eq!(expected_ids, surviving);
    assert!(appendable >= 1, "an appendable segment always remains");
    assert_eq!(holder.len(), 2);
}
