use badbatch::event_processor::DataProvider;

struct TestDataProvider {
    data: Vec<i32>,
}

impl TestDataProvider {
    fn index(&self, sequence: i64) -> usize {
        let len = i64::try_from(self.data.len()).expect("data length fits in i64");
        usize::try_from(sequence.rem_euclid(len)).expect("normalized index must fit")
    }
}

impl DataProvider<i32> for TestDataProvider {
    fn provides(&self, _sequence: i64) -> bool {
        !self.data.is_empty()
    }

    fn get(&self, sequence: i64) -> &i32 {
        &self.data[self.index(sequence)]
    }

    fn get_mut(&mut self, sequence: i64) -> &mut i32 {
        let i = self.index(sequence);
        &mut self.data[i]
    }
}

#[test]
fn test_data_provider_trait() {
    let mut provider = TestDataProvider { data: vec![1, 2, 3, 4, 5] };

    assert_eq!(*provider.get(0), 1);
    assert_eq!(*provider.get(2), 3);
    assert_eq!(*provider.get(7), 3);

    *provider.get_mut(7) = 99;

    assert_eq!(*provider.get(2), 99);
}

#[test]
fn ring_buffer_provides_events_by_slot() {
    let mut ring = badbatch::RingBuffer::new(4, badbatch::DefaultEventFactory::<i32>::new()).unwrap();
    *DataProvider::get_mut(&mut ring, 6) = 5;
    assert_eq!(*DataProvider::get(&ring, 2), 5);
}
