use garage::index::TraceIndex;
use garage::parse::cache::ParseCache;
use garage::source::LogBuffer;
use std::sync::Arc;

const TRACE: &str = "\
Compiling 0x1 <JSFunction f (sfi = 0x10)> with Maglev
----- Maglev graph building -----
   1: Foo
";

#[test]
fn second_view_hits_the_cache() {
    let mut buffer = LogBuffer::new();
    buffer.append(TRACE.as_bytes());
    buffer.finish();
    let mut idx = TraceIndex::new(None);
    idx.ingest(&buffer, true);

    let mut cache = ParseCache::default();
    let a = cache.get_or_parse(&buffer, &idx.compilations[0], 0);
    let b = cache.get_or_parse(&buffer, &idx.compilations[0], 0);
    assert!(Arc::ptr_eq(&a, &b), "same section must not re-parse");
}

#[test]
fn a_grown_section_reparses() {
    let mut buffer = LogBuffer::new();
    buffer.append(TRACE.as_bytes());
    let mut idx = TraceIndex::new(None);
    idx.ingest(&buffer, false);

    let mut cache = ParseCache::default();
    let before = cache.get_or_parse(&buffer, &idx.compilations[0], 0);

    buffer.append(b"   2: Bar\n");
    buffer.finish();
    idx.ingest(&buffer, true);
    let after = cache.get_or_parse(&buffer, &idx.compilations[0], 0);
    assert!(!Arc::ptr_eq(&before, &after), "grown section must re-parse");
    assert!(after.phases[0].node_count > before.phases[0].node_count);
}
