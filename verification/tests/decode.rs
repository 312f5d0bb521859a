use rubit::decode::{decode_dict, decode_int, decode_list, decode_string};
use rubit::value::BencodeTypes;

#[test]
fn decodes_string_and_advances_pointer() {
    let test_vec = b"11:HelloWorld!".to_vec();
    let mut pointer = 0;
    let result = decode_string(&mut pointer, &test_vec).unwrap();

    assert_eq!(String::from("HelloWorld!"), result);
    assert_eq!(pointer, 14);
}

#[test]
fn decodes_int_and_advances_pointer() {
    let test_vec = b"i5657e".to_vec();
    let mut pointer = 0;
    let result = decode_int(&mut pointer, &test_vec).unwrap();

    assert_eq!(5657 as u64, result);
    assert_eq!(pointer, 6);
}

#[test]
fn decodes_list_and_advances_pointer() {
    let test_vec =
        b"l11:HelloWorld!i5657el11:HelloWorld!i5657eed3:bar4:spam3:fooi42eee".to_vec();
    let mut pointer = 0;
    let result = decode_list(&mut pointer, &test_vec).unwrap();

    let string = String::from("HelloWorld!");
    let bar = String::from("bar");
    let spam = String::from("spam");
    let foo = String::from("foo");
    let int: u64 = 5657;

    let dict: Vec<(String, BencodeTypes)> = vec![
        (bar.clone(), BencodeTypes::String(spam.clone())),
        (foo.clone(), BencodeTypes::Integer(42)),
    ];

    assert_eq!(
        vec![
            BencodeTypes::String(string.clone()),
            BencodeTypes::Integer(int.clone()),
            BencodeTypes::List(vec![
                BencodeTypes::String(string.clone()),
                BencodeTypes::Integer(int.clone()),
            ]),
            BencodeTypes::Dict(dict),
        ],
        result,
    );
    assert_eq!(pointer, 66);
}

#[test]
fn decodes_dict_and_advances_pointer() {
    let test_vec = b"d11:HelloWorld!i42e4:listll4:testel4:testeee".to_vec();
    let mut pointer = 0;
    let result = decode_dict(&mut pointer, &test_vec).unwrap();

    let string = String::from("HelloWorld!");
    let test = String::from("test");
    let list = String::from("list");
    let int: u64 = 42;

    let dict: Vec<(String, BencodeTypes)> = vec![
        (string.clone(), BencodeTypes::Integer(int)),
        (
            list.clone(),
            BencodeTypes::List(vec![
                BencodeTypes::List(vec![BencodeTypes::String(test.clone())]),
                BencodeTypes::List(vec![BencodeTypes::String(test.clone())]),
            ]),
        ),
    ];

    assert_eq!(dict, result);
    assert_eq!(pointer, 44);
}
