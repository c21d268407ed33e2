use vevtor::{FileVectorDbManager, Indexable, IntoPayload, Payload, PayloadValue};

#[derive(Clone, Debug, PartialEq)]
struct Book {
    number: u64,
    title: String,
    shelf: String,
}

impl Indexable for Book {
    fn as_map(&self) -> Payload {
        let mut payload = Payload::new();
        payload.insert("number".to_string(), PayloadValue::Integer(self.number as i64));
        payload.insert("title".to_string(), PayloadValue::Text(self.title.clone()));
        payload.insert("shelf".to_string(), PayloadValue::Text(self.shelf.clone()));
        payload
    }

    fn get_id(&self) -> u64 {
        self.number
    }

    fn collection(&self) -> String {
        self.shelf.clone()
    }

    fn embed_label(&self) -> &str {
        &self.title
    }

    fn from_qdrant_payload(payload: &Payload) -> Result<Self, String> {
        let number = match payload.get("number") {
            Some(PayloadValue::Integer(n)) if *n >= 0 => *n as u64,
            _ => return Err("number is missing".to_string()),
        };
        let title = match payload.get("title").and_then(|v| v.as_str()) {
            Some(t) => t.to_string(),
            None => return Err("title is missing".to_string()),
        };
        let shelf = match payload.get("shelf").and_then(|v| v.as_str()) {
            Some(s) => s.to_string(),
            None => return Err("shelf is missing".to_string()),
        };
        Ok(Book { number, title, shelf })
    }
}

impl IntoPayload for Book {
    fn into_payload(self) -> Payload {
        self.as_map()
    }
}

fn book(number: u64, title: &str, shelf: &str) -> Book {
    Book {
        number,
        title: title.to_string(),
        shelf: shelf.to_string(),
    }
}

#[test]
fn records_of_another_type_are_planned_alike() {
    let books = vec![
        book(1, "Dune", "fiction"),
        book(2, "Cosmos", "science"),
        book(3, "Emma", "fiction"),
    ];
    assert_eq!(
        FileVectorDbManager::embed_labels(&books),
        vec!["Dune", "Cosmos", "Emma"]
    );
    let plan = FileVectorDbManager::insert_many(books, Ok(vec![10u8, 20u8, 30u8])).unwrap();
    assert_eq!(plan.len(), 2);
    assert_eq!(plan[0].0, "fiction");
    let ids: Vec<(u8, u64)> = plan[0].1.iter().map(|p| (p.0, p.2)).collect();
    assert_eq!(ids, vec![(10, 1), (30, 3)]);
    assert_eq!(plan[1].0, "science");
    assert_eq!(plan[1].1[0].2, 2);
    assert_eq!(
        plan[1].1[0].1.get("title"),
        Some(&PayloadValue::Text("Cosmos".to_string()))
    );
}

#[test]
fn payloads_of_another_type_are_dropped_from_a_search() {
    let dune = book(1, "Dune", "fiction");
    let mut file_payload = Payload::new();
    file_payload.insert("name".to_string(), PayloadValue::Text("a.txt".to_string()));
    let hits = vec![
        (file_payload, 0.9f32),
        (dune.as_map(), 0.8f32),
        (Payload::new(), 0.7f32),
    ];
    let results = FileVectorDbManager::search::<Book, f32>(Ok(hits)).unwrap();
    assert_eq!(results, vec![(dune, 0.8f32)]);
}

#[test]
fn every_stored_field_comes_back() {
    let emma = book(3, "Emma", "fiction");
    assert_eq!(Book::from_qdrant_payload(&emma.as_map()), Ok(emma));
}
